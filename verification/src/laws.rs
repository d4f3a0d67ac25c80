//! Properties of the presenter, stated and proved over the same spec
//! functions its contracts use.

use vstd::prelude::*;

use crate::catalog::{
    catalogs_closed, controller_of, lemma_controller_of_is_member, mode_known, mode_name_of,
    Controller, Mode, Output,
};
use crate::numfmt::dec_int;
use crate::present::{
    displaying_text, modes_text, modes_text_rec, output_block, output_renderable, present_safe,
    report,
};

verus! {

/// A disconnected output contributes nothing to the report, whatever its
/// other fields hold: the report over a catalog holding it equals the
/// report over the catalog without it.
pub proof fn lemma_disconnected_emits_nothing(
    pre: Seq<Output>,
    o: Output,
    post: Seq<Output>,
    modes: Seq<Mode>,
    controllers: Seq<Controller>,
)
    requires
        !o.connected,
    ensures
        report(pre + seq![o] + post, modes, controllers) == report(pre + post, modes, controllers),
    decreases pre.len(),
{
    if pre.len() == 0 {
        assert(pre + seq![o] + post =~= seq![o] + post);
        assert((seq![o] + post)[0] == o);
        assert((seq![o] + post).drop_first() =~= post);
        assert(pre + post =~= post);
        assert(report(seq![o] + post, modes, controllers) =~= report(post, modes, controllers));
    } else {
        let s = pre + seq![o] + post;
        let t = pre + post;
        assert(s[0] == pre[0]);
        assert(t[0] == pre[0]);
        assert(s.drop_first() =~= pre.drop_first() + seq![o] + post);
        assert(t.drop_first() =~= pre.drop_first() + post);
        lemma_disconnected_emits_nothing(pre.drop_first(), o, post, modes, controllers);
    }
}

/// An output with no bound controller displays the dash alone.
pub proof fn lemma_no_controller_displays_dash(
    o: Output,
    modes: Seq<Mode>,
    controllers: Seq<Controller>,
)
    requires
        o.controller is None,
    ensures
        displaying_text(o, modes, controllers) == "-"@,
{
}

/// An output bound to controller `c`, which drives the mode named
/// `name` from position `(x, y)`, displays that name followed by the
/// position as plain signed decimal integers.
pub proof fn lemma_bound_controller_display(
    o: Output,
    modes: Seq<Mode>,
    controllers: Seq<Controller>,
    c: Controller,
    name: Seq<char>,
)
    requires
        o.controller is Some,
        controller_of(controllers, o.controller->0) == Some(c),
        mode_name_of(modes, c.mode) == Some(name),
    ensures
        displaying_text(o, modes, controllers) == name + " ("@ + dec_int(c.pos.0 as int) + ", "@
            + dec_int(c.pos.1 as int) + ")"@,
{
}

/// The names an output's mode-id list resolves to, in list order.
pub open spec fn names_of(ids: Seq<u64>, modes: Seq<Mode>) -> Seq<Seq<char>> {
    ids.map_values(|id: u64| mode_name_of(modes, id)->0)
}

/// The names of `names` that are not in `seen`, keeping the first
/// occurrence of each and dropping every later duplicate.
pub open spec fn dedup_rec(names: Seq<Seq<char>>, seen: Set<Seq<char>>) -> Seq<Seq<char>>
    decreases names.len(),
{
    if names.len() == 0 {
        Seq::empty()
    } else if seen.contains(names[0]) {
        dedup_rec(names.drop_first(), seen)
    } else {
        seq![names[0]] + dedup_rec(names.drop_first(), seen.insert(names[0]))
    }
}

/// The distinct names of `names`, in first-occurrence order.
pub open spec fn first_occurrence(names: Seq<Seq<char>>) -> Seq<Seq<char>> {
    dedup_rec(names, Set::empty())
}

/// A space before each part: the join of everything after the first part.
pub open spec fn join_tail(parts: Seq<Seq<char>>) -> Seq<char>
    decreases parts.len(),
{
    if parts.len() == 0 {
        Seq::empty()
    } else {
        " "@ + parts[0] + join_tail(parts.drop_first())
    }
}

/// The parts joined by single spaces, with no leading or trailing space.
pub open spec fn space_joined(parts: Seq<Seq<char>>) -> Seq<char> {
    if parts.len() == 0 {
        Seq::empty()
    } else {
        parts[0] + join_tail(parts.drop_first())
    }
}

proof fn lemma_dedup_rec_props(names: Seq<Seq<char>>, seen: Set<Seq<char>>)
    ensures
        dedup_rec(names, seen).no_duplicates(),
        forall|n: Seq<char>|
            #[trigger] dedup_rec(names, seen).contains(n) <==> names.contains(n)
                && !seen.contains(n),
    decreases names.len(),
{
    let d = dedup_rec(names, seen);
    if names.len() == 0 {
        assert(forall|n: Seq<char>| !(#[trigger] names.contains(n)));
        assert(forall|n: Seq<char>| !(#[trigger] d.contains(n)));
    } else {
        let n0 = names[0];
        let rest = names.drop_first();
        assert forall|n: Seq<char>| rest.contains(n) implies names.contains(n) by {
            let i = choose|i: int| 0 <= i < rest.len() && rest[i] == n;
            assert(names[i + 1] == n);
        }
        if seen.contains(n0) {
            lemma_dedup_rec_props(rest, seen);
            assert forall|n: Seq<char>| names.contains(n) && !seen.contains(n) implies rest.contains(
                n,
            ) by {
                let i = choose|i: int| 0 <= i < names.len() && names[i] == n;
                assert(i != 0);
                assert(rest[i - 1] == n);
            }
        } else {
            let d2 = dedup_rec(rest, seen.insert(n0));
            lemma_dedup_rec_props(rest, seen.insert(n0));
            assert(d =~= seq![n0] + d2);
            assert forall|n: Seq<char>| #[trigger] d.contains(n) implies names.contains(n)
                && !seen.contains(n) by {
                let i = choose|i: int| 0 <= i < d.len() && d[i] == n;
                if i == 0 {
                    assert(n == n0);
                    assert(names[0] == n);
                } else {
                    assert(d2[i - 1] == n);
                    assert(d2.contains(n));
                }
            }
            assert forall|n: Seq<char>| names.contains(n) && !seen.contains(n) implies d.contains(
                n,
            ) by {
                if n == n0 {
                    assert(d[0] == n);
                } else {
                    let i = choose|i: int| 0 <= i < names.len() && names[i] == n;
                    assert(i != 0);
                    assert(rest[i - 1] == n);
                    assert(rest.contains(n));
                    assert(d2.contains(n));
                    let k = choose|k: int| 0 <= k < d2.len() && d2[k] == n;
                    assert(d[k + 1] == n);
                }
            }
            assert forall|i: int, j: int|
                0 <= i < d.len() && 0 <= j < d.len() && i != j implies d[i] != d[j] by {
                if i == 0 {
                    assert(d[j] == d2[j - 1]);
                    assert(d2.contains(d2[j - 1]));
                } else if j == 0 {
                    assert(d[i] == d2[i - 1]);
                    assert(d2.contains(d2[i - 1]));
                }
            }
        }
    }
}

proof fn lemma_text_is_join(ids: Seq<u64>, modes: Seq<Mode>, seen: Set<Seq<char>>, first: bool)
    ensures
        first ==> modes_text_rec(ids, modes, seen, true) == space_joined(
            dedup_rec(names_of(ids, modes), seen),
        ),
        !first ==> modes_text_rec(ids, modes, seen, false) == join_tail(
            dedup_rec(names_of(ids, modes), seen),
        ),
    decreases ids.len(),
{
    let names = names_of(ids, modes);
    if ids.len() == 0 {
        assert(names.len() == 0);
    } else {
        let n0 = mode_name_of(modes, ids[0])->0;
        assert(names[0] == n0);
        assert(names.drop_first() =~= names_of(ids.drop_first(), modes));
        if seen.contains(n0) {
            lemma_text_is_join(ids.drop_first(), modes, seen, first);
        } else {
            let d2 = dedup_rec(names.drop_first(), seen.insert(n0));
            lemma_text_is_join(ids.drop_first(), modes, seen.insert(n0), false);
            assert((seq![n0] + d2)[0] == n0);
            assert((seq![n0] + d2).drop_first() =~= d2);
        }
    }
}

/// The modes line is the space-join, with no leading or trailing space,
/// of the distinct mode names in first-occurrence order; that distinct
/// list holds no name twice and holds exactly the names the id list
/// resolves to.
pub proof fn lemma_modes_text_joins_distinct_names(ids: Seq<u64>, modes: Seq<Mode>)
    ensures
        modes_text(ids, modes) == space_joined(first_occurrence(names_of(ids, modes))),
        first_occurrence(names_of(ids, modes)).no_duplicates(),
        forall|n: Seq<char>|
            #[trigger] first_occurrence(names_of(ids, modes)).contains(n) <==> names_of(
                ids,
                modes,
            ).contains(n),
{
    lemma_text_is_join(ids, modes, Set::empty(), true);
    lemma_dedup_rec_props(names_of(ids, modes), Set::empty());
}

/// The report is a function of the catalogs alone: two runs over the
/// same catalogs render byte-identical text.
pub proof fn lemma_report_deterministic(
    outputs: Seq<Output>,
    modes: Seq<Mode>,
    controllers: Seq<Controller>,
    first_run: Seq<char>,
    second_run: Seq<char>,
)
    requires
        first_run == report(outputs, modes, controllers),
        second_run == report(outputs, modes, controllers),
    ensures
        first_run == second_run,
{
}

/// Referentially closed catalogs let the presenter render every
/// connected output: no lookup it performs can miss.
pub proof fn lemma_closed_catalogs_are_safe(
    outputs: Seq<Output>,
    modes: Seq<Mode>,
    controllers: Seq<Controller>,
)
    requires
        catalogs_closed(outputs, modes, controllers),
    ensures
        present_safe(outputs, modes, controllers),
{
    assert forall|i: int|
        0 <= i < outputs.len() && (#[trigger] outputs[i]).connected implies output_renderable(
        outputs[i],
        modes,
        controllers,
    ) by {
        assert(forall|j: int|
            0 <= j < outputs[i].modes@.len() ==> mode_known(
                modes,
                #[trigger] outputs[i].modes@[j],
            ));
        match outputs[i].controller {
            Some(cid) => {
                assert(controller_of(controllers, cid) is Some);
                lemma_controller_of_is_member(controllers, cid);
                let k = choose|k: int|
                    0 <= k < controllers.len() && #[trigger] controllers[k] == controller_of(
                        controllers,
                        cid,
                    )->0;
                assert(mode_known(modes, controllers[k].mode));
            },
            None => {},
        }
    }
}

} // verus!
