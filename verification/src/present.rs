//! The presenter: joins the three catalogs by id and renders one text
//! block per connected output.

use vstd::prelude::*;

use crate::catalog::{controller_of, mode_known, mode_name_of, Controller, Mode, Output};
use crate::numfmt::{dec_int, i32_dec};

verus! {

/// What one connected output needs of the other catalogs for the
/// presenter's lookups to land: every supported mode id resolves to a
/// name, and a bound controller exists and drives a known mode.
pub open spec fn output_renderable(o: Output, modes: Seq<Mode>, controllers: Seq<Controller>) -> bool {
    &&& forall|j: int| 0 <= j < o.modes@.len() ==> mode_known(modes, #[trigger] o.modes@[j])
    &&& match o.controller {
        Some(cid) => match controller_of(controllers, cid) {
            Some(c) => mode_known(modes, c.mode),
            None => false,
        },
        None => true,
    }
}

/// What the presenter demands of the catalogs: every connected output is
/// renderable. Disconnected outputs are skipped, so nothing is asked of
/// them.
pub open spec fn present_safe(outputs: Seq<Output>, modes: Seq<Mode>, controllers: Seq<Controller>) -> bool {
    forall|i: int|
        0 <= i < outputs.len() && (#[trigger] outputs[i]).connected ==> output_renderable(
            outputs[i],
            modes,
            controllers,
        )
}

/// Decides whether the catalogs let the presenter render every connected
/// output: exactly what `present` demands. Weaker than full referential
/// closure: an unbound controller may keep the server's "no mode"
/// sentinel, which no mode entry matches, without disturbing the render.
pub fn check_present_safe(
    outputs: &Vec<Output>,
    modes: &Vec<Mode>,
    controllers: &Vec<Controller>,
) -> (r: bool)
    ensures
        r == present_safe(outputs@, modes@, controllers@),
{
    let mut i: usize = 0;
    while i < outputs.len()
        invariant
            i <= outputs@.len(),
            forall|a: int|
                0 <= a < i && (#[trigger] outputs@[a]).connected ==> output_renderable(
                    outputs@[a],
                    modes@,
                    controllers@,
                ),
        decreases outputs@.len() - i,
    {
        let o = &outputs[i];
        if o.connected {
            let mut j: usize = 0;
            while j < o.modes.len()
                invariant
                    i < outputs@.len(),
                    *o == outputs@[i as int],
                    o.connected,
                    j <= o.modes@.len(),
                    forall|k: int| 0 <= k < j ==> mode_known(modes@, #[trigger] o.modes@[k]),
                decreases o.modes@.len() - j,
            {
                if crate::catalog::find_mode_name(modes, o.modes[j]).is_none() {
                    proof {
                        assert(!mode_known(modes@, outputs@[i as int].modes@[j as int]));
                        assert(!output_renderable(outputs@[i as int], modes@, controllers@));
                    }
                    return false;
                }
                j = j + 1;
            }
            match o.controller {
                Some(cid) => match crate::catalog::find_controller(controllers, cid) {
                    Some(c) => {
                        if crate::catalog::find_mode_name(modes, c.mode).is_none() {
                            return false;
                        }
                    },
                    None => {
                        return false;
                    },
                },
                None => {},
            }
        }
        i = i + 1;
    }
    true
}

/// The "displaying" text of an output: `-` when no controller drives it,
/// else the driven mode's name followed by the controller's viewport
/// origin.
pub open spec fn displaying_text(o: Output, modes: Seq<Mode>, controllers: Seq<Controller>) -> Seq<char> {
    match o.controller {
        None => "-"@,
        Some(cid) => {
            let c = controller_of(controllers, cid)->0;
            let name = mode_name_of(modes, c.mode)->0;
            name + " ("@ + dec_int(c.pos.0 as int) + ", "@ + dec_int(c.pos.1 as int) + ")"@
        },
    }
}

/// The "modes" text over a tail of the mode-id list: names whose value is
/// already in `seen` are dropped, a fresh name is preceded by a space
/// unless it is the first one emitted.
pub open spec fn modes_text_rec(
    ids: Seq<u64>,
    modes: Seq<Mode>,
    seen: Set<Seq<char>>,
    first: bool,
) -> Seq<char>
    decreases ids.len(),
{
    if ids.len() == 0 {
        Seq::empty()
    } else {
        let name = mode_name_of(modes, ids[0])->0;
        if seen.contains(name) {
            modes_text_rec(ids.drop_first(), modes, seen, first)
        } else if first {
            name + modes_text_rec(ids.drop_first(), modes, seen.insert(name), false)
        } else {
            " "@ + name + modes_text_rec(ids.drop_first(), modes, seen.insert(name), false)
        }
    }
}

/// The "modes" text of an output: the distinct mode names in
/// first-occurrence order, joined by single spaces.
pub open spec fn modes_text(ids: Seq<u64>, modes: Seq<Mode>) -> Seq<char> {
    modes_text_rec(ids, modes, Set::empty(), true)
}

/// The text block one connected output contributes to the report.
pub open spec fn output_block(o: Output, modes: Seq<Mode>, controllers: Seq<Controller>) -> Seq<char> {
    o.name@ + ":\n  displaying: "@ + displaying_text(o, modes, controllers) + "\n  modes: "@
        + modes_text(o.modes@, modes) + "\n"@
}

/// The whole report: the blocks of the connected outputs, in catalog
/// order, concatenated with no separator; disconnected outputs contribute
/// nothing.
pub open spec fn report(outputs: Seq<Output>, modes: Seq<Mode>, controllers: Seq<Controller>) -> Seq<char>
    decreases outputs.len(),
{
    if outputs.len() == 0 {
        Seq::empty()
    } else {
        (if outputs[0].connected {
            output_block(outputs[0], modes, controllers)
        } else {
            Seq::<char>::empty()
        }) + report(outputs.drop_first(), modes, controllers)
    }
}

/// The set of name values held by the seen-list the renderer keeps.
spec fn seen_set(seen: Seq<String>) -> Set<Seq<char>> {
    Set::new(|n: Seq<char>| exists|k: int| 0 <= k < seen.len() && (#[trigger] seen[k])@ == n)
}

proof fn lemma_seen_push(seen: Seq<String>, x: String)
    ensures
        seen_set(seen.push(x)) =~= seen_set(seen).insert(x@),
{
    assert forall|n: Seq<char>| seen_set(seen.push(x)).contains(n) implies seen_set(seen).insert(
        x@,
    ).contains(n) by {
        let k = choose|k: int| 0 <= k < seen.push(x).len() && seen.push(x)[k]@ == n;
        if k < seen.len() {
            assert(seen[k]@ == n);
        }
    }
    assert forall|n: Seq<char>| seen_set(seen).insert(x@).contains(n) implies seen_set(
        seen.push(x),
    ).contains(n) by {
        if n == x@ {
            assert(seen.push(x)[seen.len() as int]@ == n);
        } else {
            let k = choose|k: int| 0 <= k < seen.len() && seen[k]@ == n;
            assert(seen.push(x)[k]@ == n);
        }
    }
}

fn seen_contains(seen: &Vec<String>, name: &String) -> (r: bool)
    ensures
        r == seen_set(seen@).contains(name@),
{
    let mut i: usize = 0;
    while i < seen.len()
        invariant
            i <= seen@.len(),
            forall|k: int| 0 <= k < i ==> (#[trigger] seen@[k])@ != name@,
        decreases seen@.len() - i,
    {
        if seen[i] == *name {
            return true;
        }
        i = i + 1;
    }
    false
}

/// Renders the "modes" line content of one output.
fn render_modes_text(ids: &Vec<u64>, modes: &Vec<Mode>) -> (r: String)
    requires
        forall|j: int| 0 <= j < ids@.len() ==> mode_known(modes@, #[trigger] ids@[j]),
    ensures
        r@ == modes_text(ids@, modes@),
{
    let mut acc = String::new();
    let mut seen: Vec<String> = Vec::new();
    let mut first: bool = true;
    let mut i: usize = 0;
    proof {
        assert(ids@.skip(0) =~= ids@);
        assert(seen_set(seen@) =~= Set::<Seq<char>>::empty());
        assert(acc@ + modes_text_rec(ids@, modes@, Set::empty(), true) =~= modes_text(
            ids@,
            modes@,
        ));
    }
    while i < ids.len()
        invariant
            i <= ids@.len(),
            forall|j: int| 0 <= j < ids@.len() ==> mode_known(modes@, #[trigger] ids@[j]),
            modes_text(ids@, modes@) == acc@ + modes_text_rec(
                ids@.skip(i as int),
                modes@,
                seen_set(seen@),
                first,
            ),
        decreases ids@.len() - i,
    {
        let id = ids[i];
        let name = match crate::catalog::find_mode_name(modes, id) {
            Some(n) => n,
            None => vstd::pervasive::unreached(),
        };
        proof {
            assert(ids@.skip(i as int)[0] == ids@[i as int]);
            assert(ids@.skip(i as int).drop_first() =~= ids@.skip(i + 1));
        }
        if seen_contains(&seen, &name) {
            proof {
                assert(acc@ + modes_text_rec(ids@.skip(i + 1), modes@, seen_set(seen@), first)
                    =~= acc@ + modes_text_rec(ids@.skip(i as int), modes@, seen_set(seen@), first));
            }
        } else {
            let ghost old_acc = acc@;
            let ghost old_seen = seen@;
            let ghost old_first = first;
            if first {
                acc.append(name.as_str());
                first = false;
            } else {
                acc.append(" ");
                acc.append(name.as_str());
            }
            seen.push(name);
            proof {
                lemma_seen_push(old_seen, seen@[seen@.len() - 1]);
                assert(acc@ + modes_text_rec(ids@.skip(i + 1), modes@, seen_set(seen@), false)
                    =~= old_acc + modes_text_rec(
                    ids@.skip(i as int),
                    modes@,
                    seen_set(old_seen),
                    old_first,
                ));
            }
        }
        i = i + 1;
    }
    proof {
        assert(acc@ =~= acc@ + modes_text_rec(ids@.skip(i as int), modes@, seen_set(seen@), first));
    }
    acc
}

/// Renders the "displaying" text of one output.
fn render_displaying(o: &Output, modes: &Vec<Mode>, controllers: &Vec<Controller>) -> (r: String)
    requires
        output_renderable(*o, modes@, controllers@),
    ensures
        r@ == displaying_text(*o, modes@, controllers@),
{
    match o.controller {
        None => String::from_str("-"),
        Some(cid) => {
            let c = match crate::catalog::find_controller(controllers, cid) {
                Some(c) => c,
                None => vstd::pervasive::unreached(),
            };
            let mut s = match crate::catalog::find_mode_name(modes, c.mode) {
                Some(n) => n,
                None => vstd::pervasive::unreached(),
            };
            s.append(" (");
            let xs = i32_dec(c.pos.0);
            s.append(xs.as_str());
            s.append(", ");
            let ys = i32_dec(c.pos.1);
            s.append(ys.as_str());
            s.append(")");
            proof {
                assert(s@ =~= displaying_text(*o, modes@, controllers@));
            }
            s
        },
    }
}

/// Renders the text block of one connected output.
fn render_block(o: &Output, modes: &Vec<Mode>, controllers: &Vec<Controller>) -> (r: String)
    requires
        output_renderable(*o, modes@, controllers@),
    ensures
        r@ == output_block(*o, modes@, controllers@),
{
    let mut s = o.name.clone();
    s.append(":\n  displaying: ");
    let displaying = render_displaying(o, modes, controllers);
    s.append(displaying.as_str());
    s.append("\n  modes: ");
    let modes_line = render_modes_text(&o.modes, modes);
    s.append(modes_line.as_str());
    s.append("\n");
    proof {
        assert(s@ =~= output_block(*o, modes@, controllers@));
    }
    s
}

/// Renders the whole report: one block per connected output, in catalog
/// order; a disconnected output contributes nothing.
pub fn present(outputs: &Vec<Output>, modes: &Vec<Mode>, controllers: &Vec<Controller>) -> (r:
    String)
    requires
        present_safe(outputs@, modes@, controllers@),
    ensures
        r@ == report(outputs@, modes@, controllers@),
{
    let mut acc = String::new();
    let mut i: usize = 0;
    proof {
        assert(outputs@.skip(0) =~= outputs@);
        assert(acc@ + report(outputs@, modes@, controllers@) =~= report(
            outputs@,
            modes@,
            controllers@,
        ));
    }
    while i < outputs.len()
        invariant
            i <= outputs@.len(),
            present_safe(outputs@, modes@, controllers@),
            report(outputs@, modes@, controllers@) == acc@ + report(
                outputs@.skip(i as int),
                modes@,
                controllers@,
            ),
        decreases outputs@.len() - i,
    {
        proof {
            assert(outputs@.skip(i as int)[0] == outputs@[i as int]);
            assert(outputs@.skip(i as int).drop_first() =~= outputs@.skip(i + 1));
        }
        let ghost old_acc = acc@;
        if outputs[i].connected {
            let block = render_block(&outputs[i], modes, controllers);
            acc.append(block.as_str());
        }
        proof {
            assert(acc@ + report(outputs@.skip(i + 1), modes@, controllers@) =~= old_acc + report(
                outputs@.skip(i as int),
                modes@,
                controllers@,
            ));
        }
        i = i + 1;
    }
    proof {
        assert(acc@ =~= acc@ + report(outputs@.skip(i as int), modes@, controllers@));
    }
    acc
}

} // verus!
