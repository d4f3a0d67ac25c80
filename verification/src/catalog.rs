//! The three catalogs one snapshot of the display server yields: outputs,
//! controllers and modes, as plain records keyed by the server's numeric
//! ids, together with the normalization of the server's sentinel values
//! and the referential-closure check the presenter depends on.

use vstd::prelude::*;

verus! {

/// One display timing configuration known to the server.
pub struct Mode {
    pub id: u64,
    pub name: String,
}

/// A timing engine currently driving zero or more outputs: the mode id it
/// drives (the server's "no mode" sentinel is kept raw here) and its
/// viewport origin in the virtual screen.
#[derive(Clone, Copy)]
pub struct Controller {
    pub id: u64,
    pub mode: u64,
    pub pos: (i32, i32),
}

/// One physical or logical video connector, with the server's sentinel
/// fields already normalized: `connected` is a plain flag and an unbound
/// controller is `None`.
pub struct Output {
    pub id: u64,
    pub name: String,
    pub connected: bool,
    pub modes: Vec<u64>,
    pub controller: Option<u64>,
}

/// An output descriptor as the server reports it, sentinels not yet
/// normalized: `connection` is the raw tri-state field (zero means
/// connected) and `crtc` is the raw controller id (zero means none).
pub struct RawOutput {
    pub id: u64,
    pub name: String,
    pub connection: u16,
    pub modes: Vec<u64>,
    pub crtc: u64,
}

/// A controller descriptor as the server reports it.
pub struct RawController {
    pub id: u64,
    pub mode: u64,
    pub x: i32,
    pub y: i32,
}

/// A mode descriptor as the server reports it, the name already decoded
/// to text.
pub struct RawMode {
    pub id: u64,
    pub name: String,
}

/// How a normalized `Output` relates to the raw descriptor it came from:
/// same id, name and mode list; only the literal zero connection state
/// counts as connected; a controller id of zero becomes `None`.
pub open spec fn output_normalizes(raw: RawOutput, o: Output) -> bool {
    &&& o.id == raw.id
    &&& o.name@ == raw.name@
    &&& o.connected == (raw.connection == 0)
    &&& o.modes@ == raw.modes@
    &&& o.controller == (if raw.crtc > 0 {
        Some(raw.crtc)
    } else {
        None::<u64>
    })
}

/// How a `Controller` relates to its raw descriptor: a plain field copy.
pub open spec fn controller_normalizes(raw: RawController, c: Controller) -> bool {
    &&& c.id == raw.id
    &&& c.mode == raw.mode
    &&& c.pos == (raw.x, raw.y)
}

/// How a `Mode` relates to its raw descriptor: a plain field copy.
pub open spec fn mode_normalizes(raw: RawMode, m: Mode) -> bool {
    &&& m.id == raw.id
    &&& m.name@ == raw.name@
}

/// The name of the mode with the given id, looked up by first match in
/// catalog order.
pub open spec fn mode_name_of(modes: Seq<Mode>, id: u64) -> Option<Seq<char>>
    decreases modes.len(),
{
    if modes.len() == 0 {
        None
    } else if modes[0].id == id {
        Some(modes[0].name@)
    } else {
        mode_name_of(modes.drop_first(), id)
    }
}

/// The controller with the given id, looked up by first match in catalog
/// order.
pub open spec fn controller_of(controllers: Seq<Controller>, id: u64) -> Option<Controller>
    decreases controllers.len(),
{
    if controllers.len() == 0 {
        None
    } else if controllers[0].id == id {
        Some(controllers[0])
    } else {
        controller_of(controllers.drop_first(), id)
    }
}

/// Whether the mode catalog has an entry for the given id.
pub open spec fn mode_known(modes: Seq<Mode>, id: u64) -> bool {
    mode_name_of(modes, id) is Some
}

/// Referential closure of one snapshot's catalogs: every mode id any
/// output supports or any controller drives has an entry in the mode
/// catalog, and every controller an output is bound to has an entry in
/// the controller catalog.
pub open spec fn catalogs_closed(
    outputs: Seq<Output>,
    modes: Seq<Mode>,
    controllers: Seq<Controller>,
) -> bool {
    &&& forall|i: int, j: int|
        0 <= i < outputs.len() && 0 <= j < outputs[i].modes@.len() ==> mode_known(
            modes,
            #[trigger] outputs[i].modes@[j],
        )
    &&& forall|i: int|
        0 <= i < controllers.len() ==> mode_known(modes, (#[trigger] controllers[i]).mode)
    &&& forall|i: int|
        0 <= i < outputs.len() ==> match (#[trigger] outputs[i]).controller {
            Some(cid) => controller_of(controllers, cid) is Some,
            None => true,
        }
}

/// A controller the lookup finds is a member of the catalog it was
/// looked up in.
pub proof fn lemma_controller_of_is_member(controllers: Seq<Controller>, id: u64)
    requires
        controller_of(controllers, id) is Some,
    ensures
        exists|i: int|
            0 <= i < controllers.len() && #[trigger] controllers[i] == controller_of(
                controllers,
                id,
            )->0,
    decreases controllers.len(),
{
    if controllers.len() == 0 {
    } else if controllers[0].id == id {
        assert(controllers[0] == controller_of(controllers, id)->0);
    } else {
        lemma_controller_of_is_member(controllers.drop_first(), id);
        let i = choose|i: int|
            0 <= i < controllers.drop_first().len() && #[trigger] controllers.drop_first()[i]
                == controller_of(controllers.drop_first(), id)->0;
        assert(controllers[i + 1] == controller_of(controllers, id)->0);
    }
}

/// Decides whether the catalogs are referentially closed. Catalogs built
/// from one consistent server snapshot are closed by construction, but
/// nothing enforces that the snapshot was consistent, so the presenter's
/// caller can check before rendering.
pub fn check_catalogs_closed(
    outputs: &Vec<Output>,
    modes: &Vec<Mode>,
    controllers: &Vec<Controller>,
) -> (r: bool)
    ensures
        r == catalogs_closed(outputs@, modes@, controllers@),
{
    let mut i: usize = 0;
    while i < outputs.len()
        invariant
            i <= outputs@.len(),
            forall|a: int, j: int|
                0 <= a < i && 0 <= j < outputs@[a].modes@.len() ==> mode_known(
                    modes@,
                    #[trigger] outputs@[a].modes@[j],
                ),
            forall|a: int|
                0 <= a < i ==> match (#[trigger] outputs@[a]).controller {
                    Some(cid) => controller_of(controllers@, cid) is Some,
                    None => true,
                },
        decreases outputs@.len() - i,
    {
        let o = &outputs[i];
        let mut j: usize = 0;
        while j < o.modes.len()
            invariant
                i < outputs@.len(),
                *o == outputs@[i as int],
                j <= o.modes@.len(),
                forall|k: int| 0 <= k < j ==> mode_known(modes@, #[trigger] o.modes@[k]),
        decreases o.modes@.len() - j,
        {
            if find_mode_name(modes, o.modes[j]).is_none() {
                proof {
                    assert(!mode_known(modes@, outputs@[i as int].modes@[j as int]));
                }
                return false;
            }
            j = j + 1;
        }
        match o.controller {
            Some(cid) => {
                if find_controller(controllers, cid).is_none() {
                    return false;
                }
            },
            None => {},
        }
        i = i + 1;
    }
    let mut k: usize = 0;
    while k < controllers.len()
        invariant
            k <= controllers@.len(),
            forall|a: int| 0 <= a < k ==> mode_known(modes@, (#[trigger] controllers@[a]).mode),
            forall|a: int, j: int|
                0 <= a < outputs@.len() && 0 <= j < outputs@[a].modes@.len() ==> mode_known(
                    modes@,
                    #[trigger] outputs@[a].modes@[j],
                ),
            forall|a: int|
                0 <= a < outputs@.len() ==> match (#[trigger] outputs@[a]).controller {
                    Some(cid) => controller_of(controllers@, cid) is Some,
                    None => true,
                },
        decreases controllers@.len() - k,
    {
        if find_mode_name(modes, controllers[k].mode).is_none() {
            return false;
        }
        k = k + 1;
    }
    true
}

/// Builds the output catalog: one normalized `Output` per raw descriptor,
/// in the server-reported order.
pub fn get_outputs(raws: &Vec<RawOutput>) -> (r: Vec<Output>)
    ensures
        r@.len() == raws@.len(),
        forall|i: int| 0 <= i < raws@.len() ==> output_normalizes(raws@[i], #[trigger] r@[i]),
{
    let mut r: Vec<Output> = Vec::new();
    let mut i: usize = 0;
    while i < raws.len()
        invariant
            i <= raws@.len(),
            r@.len() == i,
            forall|j: int| 0 <= j < i ==> output_normalizes(raws@[j], #[trigger] r@[j]),
        decreases raws@.len() - i,
    {
        let raw = &raws[i];
        let controller = if raw.crtc > 0 {
            Some(raw.crtc)
        } else {
            None
        };
        let o = Output {
            id: raw.id,
            name: raw.name.clone(),
            connected: raw.connection == 0,
            modes: copy_ids(&raw.modes),
            controller,
        };
        r.push(o);
        i = i + 1;
    }
    r
}

/// Builds the controller catalog from the raw descriptors, in the
/// server-reported order.
pub fn get_controllers(raws: &Vec<RawController>) -> (r: Vec<Controller>)
    ensures
        r@.len() == raws@.len(),
        forall|i: int| 0 <= i < raws@.len() ==> controller_normalizes(raws@[i], #[trigger] r@[i]),
{
    let mut r: Vec<Controller> = Vec::new();
    let mut i: usize = 0;
    while i < raws.len()
        invariant
            i <= raws@.len(),
            r@.len() == i,
            forall|j: int| 0 <= j < i ==> controller_normalizes(raws@[j], #[trigger] r@[j]),
        decreases raws@.len() - i,
    {
        let raw = &raws[i];
        r.push(Controller { id: raw.id, mode: raw.mode, pos: (raw.x, raw.y) });
        i = i + 1;
    }
    r
}

/// Builds the mode catalog from the descriptors inlined in the snapshot,
/// in the server-reported order.
pub fn get_modes(raws: &Vec<RawMode>) -> (r: Vec<Mode>)
    ensures
        r@.len() == raws@.len(),
        forall|i: int| 0 <= i < raws@.len() ==> mode_normalizes(raws@[i], #[trigger] r@[i]),
{
    let mut r: Vec<Mode> = Vec::new();
    let mut i: usize = 0;
    while i < raws.len()
        invariant
            i <= raws@.len(),
            r@.len() == i,
            forall|j: int| 0 <= j < i ==> mode_normalizes(raws@[j], #[trigger] r@[j]),
        decreases raws@.len() - i,
    {
        let raw = &raws[i];
        r.push(Mode { id: raw.id, name: raw.name.clone() });
        i = i + 1;
    }
    r
}

fn copy_ids(ids: &Vec<u64>) -> (r: Vec<u64>)
    ensures
        r@ == ids@,
{
    let mut r: Vec<u64> = Vec::new();
    let mut i: usize = 0;
    while i < ids.len()
        invariant
            i <= ids@.len(),
            r@ == ids@.subrange(0, i as int),
        decreases ids@.len() - i,
    {
        r.push(ids[i]);
        proof {
            assert(r@ =~= ids@.subrange(0, i + 1));
        }
        i = i + 1;
    }
    proof {
        assert(r@ =~= ids@);
    }
    r
}

/// Looks the given mode id up in the catalog, returning a copy of its
/// name on a hit, by first match in catalog order.
pub fn find_mode_name(modes: &Vec<Mode>, id: u64) -> (r: Option<String>)
    ensures
        match r {
            Some(name) => mode_name_of(modes@, id) == Some(name@),
            None => mode_name_of(modes@, id) is None,
        },
{
    let mut i: usize = 0;
    proof {
        assert(modes@.skip(0) =~= modes@);
    }
    while i < modes.len()
        invariant
            i <= modes@.len(),
            mode_name_of(modes@, id) == mode_name_of(modes@.skip(i as int), id),
            forall|j: int| 0 <= j < i ==> modes@[j].id != id,
        decreases modes@.len() - i,
    {
        if modes[i].id == id {
            proof {
                assert(modes@.skip(i as int)[0] == modes@[i as int]);
            }
            return Some(modes[i].name.clone());
        }
        proof {
            assert(modes@.skip(i as int).drop_first() =~= modes@.skip(i + 1));
        }
        i = i + 1;
    }
    None
}

/// Looks the given controller id up in the catalog, by first match in
/// catalog order.
pub fn find_controller(controllers: &Vec<Controller>, id: u64) -> (r: Option<Controller>)
    ensures
        r == controller_of(controllers@, id),
{
    let mut i: usize = 0;
    proof {
        assert(controllers@.skip(0) =~= controllers@);
    }
    while i < controllers.len()
        invariant
            i <= controllers@.len(),
            controller_of(controllers@, id) == controller_of(controllers@.skip(i as int), id),
            forall|j: int| 0 <= j < i ==> controllers@[j].id != id,
        decreases controllers@.len() - i,
    {
        if controllers[i].id == id {
            proof {
                assert(controllers@.skip(i as int)[0] == controllers@[i as int]);
            }
            return Some(controllers[i]);
        }
        proof {
            assert(controllers@.skip(i as int).drop_first() =~= controllers@.skip(i + 1));
        }
        i = i + 1;
    }
    None
}

} // verus!
