//! fs-verity on a repository's objects: which objects still need it, and what
//! is left to do once they have it.
use vstd::prelude::*;

verus! {

/// Whether fs-verity is wanted.
#[derive(Debug, Clone, Copy, PartialEq, Eq)]
pub enum Tristate {
    Enabled,
    Disabled,
    Maybe,
}

/// fs-verity state of a repository.
#[derive(Debug, Clone, Copy)]
pub struct RepoVerityState {
    /// Whether fs-verity is wanted, from the repository configuration.
    pub desired: Tristate,
    /// Whether fs-verity is known to be on for every object (the flag is fs-verity
    /// on the configuration file itself).
    pub enabled: bool,
}

/// An entry of the object store: `(is a regular file, fs-verity on)`.
pub type ObjectEntry = (bool, bool);

/// The objects that lack fs-verity, by index, in order.
pub open spec fn pending(objs: Seq<ObjectEntry>) -> Seq<usize>
    decreases objs.len(),
{
    if objs.len() == 0 {
        seq![]
    } else if objs.last().0 && !objs.last().1 {
        pending(objs.drop_last()).push((objs.len() - 1) as usize)
    } else {
        pending(objs.drop_last())
    }
}

/// The work that makes fs-verity complete on a repository.
#[derive(Debug, PartialEq, Eq)]
pub struct VerityPlan {
    /// Objects to enable fs-verity on, by index.
    pub enable_objects: Vec<usize>,
    /// Whether to record in the configuration that fs-verity is wanted.
    pub set_config_flag: bool,
    /// Whether to enable fs-verity on the configuration file, the flag that
    /// all objects have it.
    pub enable_config: bool,
}

/// What must be done: nothing once the flag is set; else every file object
/// without fs-verity, the configuration entry unless it already asks for
/// fs-verity, and the flag.
pub fn plan_ensure_verity(state: &RepoVerityState, objects: &Vec<ObjectEntry>) -> (r: VerityPlan)
    ensures
        state.enabled ==> r.enable_objects@.len() == 0 && !r.set_config_flag && !r.enable_config,
        !state.enabled ==> {
            &&& r.enable_objects@ == pending(objects@)
            &&& r.set_config_flag == (state.desired != Tristate::Enabled)
            &&& r.enable_config
        },
{
    if state.enabled {
        return VerityPlan { enable_objects: Vec::new(), set_config_flag: false, enable_config: false };
    }
    let mut out: Vec<usize> = Vec::new();
    let mut i: usize = 0;
    while i < objects.len()
        invariant
            i <= objects@.len(),
            out@ == pending(objects@.take(i as int)),
        decreases objects@.len() - i,
    {
        assert(objects@.take(i + 1).drop_last() =~= objects@.take(i as int));
        let (is_file, on) = objects[i];
        if is_file && !on {
            out.push(i);
        }
        i = i + 1;
    }
    assert(objects@.take(i as int) =~= objects@);
    let set_flag = match state.desired {
        Tristate::Enabled => false,
        _ => true,
    };
    VerityPlan { enable_objects: out, set_config_flag: set_flag, enable_config: true }
}

/// The objects once fs-verity is enabled on those at `idx`.
pub open spec fn enabled_at(objs: Seq<ObjectEntry>, idx: Seq<usize>) -> Seq<ObjectEntry> {
    Seq::new(objs.len(), |i: int| if idx.contains(i as usize) { (objs[i].0, true) } else { objs[i] })
}

proof fn lemma_pending_members(objs: Seq<ObjectEntry>)
    ensures
        forall|i: int| 0 <= i < objs.len() && objs[i].0 && !objs[i].1 ==> pending(objs).contains(i as usize),
        forall|k: int| 0 <= k < pending(objs).len() ==> (#[trigger] pending(objs)[k]) < objs.len(),
    decreases objs.len(),
{
    if objs.len() > 0 {
        let d = objs.drop_last();
        lemma_pending_members(d);
        assert forall|i: int| 0 <= i < objs.len() && objs[i].0 && !objs[i].1 implies pending(objs).contains(
            i as usize,
        ) by {
            if i < objs.len() - 1 {
                assert(d[i] == objs[i]);
                let k = choose|k: int| 0 <= k < pending(d).len() && pending(d)[k] == i as usize;
                if objs.last().0 && !objs.last().1 {
                    assert(pending(objs)[k] == i as usize);
                }
            } else {
                assert(pending(objs).last() == i as usize);
            }
        }
    }
}

/// The flag tells the truth: when it is set, no file object lacks fs-verity.
pub open spec fn flag_truthful(enabled: bool, objs: Seq<ObjectEntry>) -> bool {
    enabled ==> pending(objs).len() == 0
}

/// Once the work planned is done, every file object has fs-verity; so a second
/// walk finds nothing to enable, the flag that the work sets tells the truth,
/// and with it set nothing is left at all.
pub proof fn lemma_ensure_verity_complete(objs: Seq<ObjectEntry>)
    ensures
        flag_truthful(true, enabled_at(objs, pending(objs))),
        forall|i: int| 0 <= i < objs.len() && (#[trigger] enabled_at(objs, pending(objs))[i]).0 ==> enabled_at(
            objs,
            pending(objs),
        )[i].1,
        pending(enabled_at(objs, pending(objs))) == Seq::<usize>::empty(),
{
    lemma_pending_members(objs);
    let after = enabled_at(objs, pending(objs));
    lemma_no_pending(after);
}

proof fn lemma_no_pending(objs: Seq<ObjectEntry>)
    requires
        forall|i: int| 0 <= i < objs.len() && (#[trigger] objs[i]).0 ==> objs[i].1,
    ensures
        pending(objs) == Seq::<usize>::empty(),
    decreases objs.len(),
{
    if objs.len() > 0 {
        let d = objs.drop_last();
        assert forall|i: int| 0 <= i < d.len() && (#[trigger] d[i]).0 implies d[i].1 by {
            assert(d[i] == objs[i]);
        }
        lemma_no_pending(d);
        assert(objs[objs.len() - 1] == objs.last());
    }
}

} // verus!
