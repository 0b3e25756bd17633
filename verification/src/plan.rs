use vstd::prelude::*;

use crate::bytes::copy_bytes;
use crate::group::FileGroup;
use crate::group::FileEntry;
use crate::keep::{get_kept_file, is_keeper_index, some_keep_match};
use crate::paths::{join_path, join_spec};

verus! {

/// What is offered for one discard candidate: relocation to a fixed
/// destination, or deletion.
pub enum Action {
    Move { dest: Vec<u8> },
    Delete,
}

/// One discard candidate together with the action it is offered.
pub struct PlannedAction {
    pub path: Vec<u8>,
    pub action: Action,
}

/// The outcome for one group: the path being kept and the confirmable
/// actions for every other member.
pub struct GroupPlan {
    pub keeping: Vec<u8>,
    pub actions: Vec<PlannedAction>,
}

/// A filesystem operation a confirmation releases.
pub enum FsOp {
    Rename { from: Vec<u8>, to: Vec<u8> },
    Remove { path: Vec<u8> },
}

/// The action planned for entry `e`: its own path, and — when a move
/// destination is configured — a move that keeps the file's name under
/// that destination; a deletion otherwise. In move mode nothing is ever
/// planned for deletion.
pub open spec fn entry_action_ok(a: PlannedAction, e: FileEntry, move_to: Option<Vec<u8>>) -> bool {
    &&& a.path@ == e.path@
    &&& match move_to {
        Some(m) => a.action matches Action::Move { dest } && dest@ == join_spec(m@, e.name@),
        None => a.action is Delete,
    }
}

/// The operation carries out exactly the planned action.
pub open spec fn op_matches_action(op: FsOp, a: PlannedAction) -> bool {
    match a.action {
        Action::Move { dest } => op matches FsOp::Rename { from, to } && from@ == a.path@ && to@
            == dest@,
        Action::Delete => op matches FsOp::Remove { path } && path@ == a.path@,
    }
}

/// Every group member except the keeper becomes a discard candidate, in
/// listing order, offered a move when a destination is configured and a
/// deletion otherwise.
pub fn resolve_group(group: &FileGroup, keeper: usize, move_to: &Option<Vec<u8>>) -> (actions: Vec<
    PlannedAction,
>)
    requires
        keeper < group.entries@.len(),
    ensures
        actions@.len() == group.entries@.len() - 1,
        forall|t: int|
            0 <= t < actions@.len() ==> entry_action_ok(
                #[trigger] actions@[t],
                group.entries@.remove(keeper as int)[t],
                *move_to,
            ),
{
    let mut actions: Vec<PlannedAction> = Vec::new();
    let mut i: usize = 0;
    while i < group.entries.len()
        invariant
            i <= group.entries@.len(),
            keeper < group.entries@.len(),
            actions@.len() == if i <= keeper {
                i as int
            } else {
                i - 1
            },
            forall|t: int|
                0 <= t < actions@.len() ==> entry_action_ok(
                    #[trigger] actions@[t],
                    group.entries@.remove(keeper as int)[t],
                    *move_to,
                ),
        decreases group.entries@.len() - i,
    {
        if i != keeper {
            let e = &group.entries[i];
            let act = match move_to {
                Some(m) => PlannedAction {
                    path: copy_bytes(&e.path),
                    action: Action::Move { dest: join_path(m, &e.name) },
                },
                None => PlannedAction { path: copy_bytes(&e.path), action: Action::Delete },
            };
            proof {
                group.entries@.remove_ensures(keeper as int);
                if i < keeper {
                    assert(group.entries@.remove(keeper as int)[i as int]
                        == group.entries@[i as int]);
                } else {
                    assert(group.entries@.remove(keeper as int)[i - 1] == group.entries@[i as int]);
                }
                assert(entry_action_ok(act, group.entries@[i as int], *move_to));
            }
            actions.push(act);
        }
        i += 1;
    }
    actions
}

/// The keeper and the plan relate to the group as the policy demands:
/// `i` is the keeper, the kept path is its, and every other member is
/// planned as `entry_action_ok` says.
pub open spec fn keeper_plan_ok(
    keep: Seq<Vec<u8>>,
    entries: Seq<FileEntry>,
    move_to: Option<Vec<u8>>,
    i: int,
    p: GroupPlan,
) -> bool {
    &&& is_keeper_index(keep, entries, i)
    &&& p.keeping@ == entries[i].path@
    &&& p.actions@.len() == entries.len() - 1
    &&& forall|t: int|
        0 <= t < p.actions@.len() ==> entry_action_ok(
            #[trigger] p.actions@[t],
            entries.remove(i)[t],
            move_to,
        )
}

/// Drives one group: selects the keeper and plans the rest. When no
/// keep-priority extension is present there is no plan at all — no
/// member of such a group is offered for deletion or relocation.
pub fn plan_group(group: &FileGroup, keep: &Vec<Vec<u8>>, move_to: &Option<Vec<u8>>) -> (r: Option<
    GroupPlan,
>)
    ensures
        (r is Some) <==> some_keep_match(keep@, group.entries@),
        r is Some ==> exists|i: int| keeper_plan_ok(keep@, group.entries@, *move_to, i, r->0),
{
    match get_kept_file(keep, &group.entries) {
        Some(i) => {
            let keeping = copy_bytes(&group.entries[i].path);
            let actions = resolve_group(group, i, move_to);
            let p = GroupPlan { keeping, actions };
            let ghost gp: GroupPlan = p;
            proof {
                assert(keeper_plan_ok(keep@, group.entries@, *move_to, i as int, gp));
            }
            let r: Option<GroupPlan> = Some(p);
            proof {
                assert(r->0 == gp);
                assert(exists|w: int| keeper_plan_ok(keep@, group.entries@, *move_to, w, r->0));
            }
            r
        },
        None => None,
    }
}

/// Turns one confirmation into at most one operation: a confirmed
/// action releases exactly the operation it planned, a declined one
/// releases nothing.
pub fn action_op(action: &PlannedAction, confirmed: bool) -> (r: Option<FsOp>)
    ensures
        confirmed ==> (r matches Some(op) && op_matches_action(op, *action)),
        !confirmed ==> r is None,
{
    if !confirmed {
        return None;
    }
    match &action.action {
        Action::Move { dest } => Some(
            FsOp::Rename { from: copy_bytes(&action.path), to: copy_bytes(dest) },
        ),
        Action::Delete => Some(FsOp::Remove { path: copy_bytes(&action.path) }),
    }
}

/// The subsequence of actions whose confirmation was given, in order.
pub open spec fn confirmed_actions(actions: Seq<PlannedAction>, confirms: Seq<bool>) -> Seq<
    PlannedAction,
>
    decreases actions.len(),
{
    if actions.len() == 0 || confirms.len() == 0 {
        Seq::empty()
    } else if confirms.last() {
        confirmed_actions(actions.drop_last(), confirms.drop_last()).push(actions.last())
    } else {
        confirmed_actions(actions.drop_last(), confirms.drop_last())
    }
}

/// Declining every confirmation releases no operation at all.
pub proof fn lemma_all_declined_no_ops(actions: Seq<PlannedAction>, confirms: Seq<bool>)
    requires
        actions.len() == confirms.len(),
        forall|t: int| 0 <= t < confirms.len() ==> !confirms[t],
    ensures
        confirmed_actions(actions, confirms).len() == 0,
    decreases actions.len(),
{
    if actions.len() > 0 {
        assert(!confirms.last());
        assert forall|t: int| 0 <= t < confirms.drop_last().len() implies !confirms.drop_last()[t]
        by {
            assert(confirms.drop_last()[t] == confirms[t]);
        }
        lemma_all_declined_no_ops(actions.drop_last(), confirms.drop_last());
    }
}

/// Replays a scripted confirmation source over planned actions: the
/// operations released are exactly those of the confirmed actions, in
/// order, and an all-declined script releases none.
pub fn executed_ops(actions: &Vec<PlannedAction>, confirms: &Vec<bool>) -> (ops: Vec<FsOp>)
    requires
        actions@.len() == confirms@.len(),
    ensures
        ops@.len() == confirmed_actions(actions@, confirms@).len(),
        forall|t: int|
            0 <= t < ops@.len() ==> op_matches_action(
                #[trigger] ops@[t],
                confirmed_actions(actions@, confirms@)[t],
            ),
        (forall|t: int| 0 <= t < confirms@.len() ==> !confirms@[t]) ==> ops@.len() == 0,
{
    let mut ops: Vec<FsOp> = Vec::new();
    let mut i: usize = 0;
    while i < actions.len()
        invariant
            i <= actions@.len(),
            actions@.len() == confirms@.len(),
            ops@.len() == confirmed_actions(
                actions@.subrange(0, i as int),
                confirms@.subrange(0, i as int),
            ).len(),
            forall|t: int|
                0 <= t < ops@.len() ==> op_matches_action(
                    #[trigger] ops@[t],
                    confirmed_actions(
                        actions@.subrange(0, i as int),
                        confirms@.subrange(0, i as int),
                    )[t],
                ),
        decreases actions@.len() - i,
    {
        let ghost sa: Seq<PlannedAction> = actions@.subrange(0, i as int);
        let ghost sc: Seq<bool> = confirms@.subrange(0, i as int);
        let ghost sa1: Seq<PlannedAction> = actions@.subrange(0, i + 1);
        let ghost sc1: Seq<bool> = confirms@.subrange(0, i + 1);
        proof {
            assert(sa1.drop_last() =~= sa);
            assert(sc1.drop_last() =~= sc);
            assert(sa1.last() == actions@[i as int]);
            assert(sc1.last() == confirms@[i as int]);
        }
        if confirms[i] {
            match action_op(&actions[i], true) {
                Some(op) => {
                    ops.push(op);
                    proof {
                        assert(confirmed_actions(sa1, sc1) == confirmed_actions(sa, sc).push(
                            actions@[i as int],
                        ));
                    }
                },
                None => {
                    proof {
                        assert(false);
                    }
                },
            }
        } else {
            proof {
                assert(confirmed_actions(sa1, sc1) == confirmed_actions(sa, sc));
            }
        }
        i += 1;
    }
    proof {
        assert(actions@.subrange(0, actions@.len() as int) =~= actions@);
        assert(confirms@.subrange(0, confirms@.len() as int) =~= confirms@);
        if forall|t: int| 0 <= t < confirms@.len() ==> !confirms@[t] {
            lemma_all_declined_no_ops(actions@, confirms@);
        }
    }
    ops
}

} // verus!
