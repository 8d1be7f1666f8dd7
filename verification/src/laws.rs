//! The delivery-layer laws, proved over the store's model.
//!
//! These proof functions state, in the vocabulary of the store's contracts,
//! the rules the service enforces across calls: one-time key-package
//! consumption, strictly increasing group epochs, membership-scoped
//! visibility after removal, and byte-identical round trips of stored
//! payloads.

use crate::entities::ClientModel;
use crate::entities::GroupModel;
use crate::entities::KeyPackageModel;
use crate::entities::MembershipModel;
use crate::entities::MessageModel;
use crate::seqs::keep;
use crate::seqs::keep_rev;
use crate::seqs::lemma_keep_contains;
use crate::seqs::lemma_keep_push;
use crate::seqs::lemma_keep_rev_contains;
use crate::store::client_at;
use crate::store::distinct_client_ids;
use crate::store::distinct_group_ids;
use crate::store::distinct_key_package_ids;
use crate::store::group_at;
use crate::store::group_index;
use crate::store::group_visible_to;
use crate::store::has_client;
use crate::store::has_group;
use crate::store::has_key_package;
use crate::store::is_active_member;
use crate::store::key_package_at;
use crate::store::key_package_index;
use crate::store::lemma_client_index_is;
use crate::store::lemma_distinct_groups_relocate;
use crate::store::lemma_group_index_is;
use crate::store::lemma_key_package_index_is;
use crate::store::message_visible_to;
use crate::store::relocate_src;
use vstd::prelude::*;

verus! {

/// The key-package table after `id` is marked used: exactly the transition
/// `mark_key_package_used` performs on success.
pub open spec fn key_packages_after_mark(s: Seq<KeyPackageModel>, id: u128) -> Seq<
    KeyPackageModel,
> {
    s.update(key_package_index(s, id), KeyPackageModel { used: true, ..key_package_at(s, id) })
}

/// Law: marking a key package used is one-way and happens at most once.
/// After any mark of `id`, the package is used, so any further attempt to
/// mark or consume it observes `fresh == false` (the flag
/// `mark_key_package_used` returns), and no transition of the store ever
/// clears the flag: marking again leaves the package used.
pub proof fn lemma_key_package_single_use(s: Seq<KeyPackageModel>, id: u128)
    requires
        distinct_key_package_ids(s),
        has_key_package(s, id),
    ensures
        ({
            let s1 = key_packages_after_mark(s, id);
            &&& distinct_key_package_ids(s1)
            &&& has_key_package(s1, id)
            &&& key_package_at(s1, id).used
            &&& key_package_at(s1, id).data == key_package_at(s, id).data
            &&& key_package_at(key_packages_after_mark(s1, id), id).used
        }),
{
    let ki = key_package_index(s, id);
    assert(0 <= ki < s.len() && s[ki].id == id);
    let s1 = key_packages_after_mark(s, id);
    assert forall|i: int, j: int| 0 <= i < j < s1.len() implies (#[trigger] s1[i]).id != (
    #[trigger] s1[j]).id by {
        assert(s1[i].id == s[i].id);
        assert(s1[j].id == s[j].id);
    }
    lemma_key_package_index_is(s1, id, ki);
    let s2 = key_packages_after_mark(s1, id);
    assert(s2[ki].used);
    assert forall|i: int, j: int| 0 <= i < j < s2.len() implies (#[trigger] s2[i]).id != (
    #[trigger] s2[j]).id by {
        assert(s2[i].id == s1[i].id);
        assert(s2[j].id == s1[j].id);
    }
    lemma_key_package_index_is(s2, id, ki);
}

/// The group table after a commit to `gid` with target epoch `e` is
/// accepted at time `t`: exactly the transition `store_commit_message`
/// performs on the groups.
pub open spec fn groups_after_commit(s: Seq<GroupModel>, gid: u128, e: u64, t: i64) -> Seq<
    GroupModel,
> {
    s.remove(group_index(s, gid)).push(
        GroupModel { epoch: e, updated_at: t, ..group_at(s, gid) },
    )
}

/// Uniqueness of group identifiers survives a commit transition.
pub proof fn lemma_groups_after_commit_distinct(s: Seq<GroupModel>, gid: u128, e: u64, t: i64)
    requires
        distinct_group_ids(s),
        has_group(s, gid),
    ensures
        distinct_group_ids(groups_after_commit(s, gid, e, t)),
        has_group(groups_after_commit(s, gid, e, t), gid),
        group_index(groups_after_commit(s, gid, e, t), gid) == s.len() - 1,
        group_at(groups_after_commit(s, gid, e, t), gid) == (GroupModel {
            epoch: e,
            updated_at: t,
            ..group_at(s, gid)
        }),
{
    let gi = group_index(s, gid);
    assert(0 <= gi < s.len() && s[gi].id == gid);
    let ns = groups_after_commit(s, gid, e, t);
    assert forall|p: int| 0 <= p < s.len() - 1 implies (#[trigger] ns[p]).id == s[relocate_src(
        p,
        gi,
    )].id by {
        if p < gi {
            assert(ns[p] == s[p]);
        } else {
            assert(ns[p] == s[p + 1]);
        }
    }
    assert(ns[s.len() - 1].id == gid);
    lemma_distinct_groups_relocate(s, gi, ns);
    lemma_group_index_is(ns, gid, s.len() - 1);
}

/// Law: the epochs a group passes through strictly increase. A commit is
/// accepted only with a target epoch above the group's current epoch, so
/// over two successive accepted commits the epochs observed of the group
/// (its starting epoch, then `e1`, then `e2`) form a strictly increasing
/// sequence; by induction the same holds over any run of accepted commits.
pub proof fn lemma_epoch_strictly_increases(
    s: Seq<GroupModel>,
    gid: u128,
    e1: u64,
    e2: u64,
    t1: i64,
    t2: i64,
)
    requires
        distinct_group_ids(s),
        has_group(s, gid),
        e1 > group_at(s, gid).epoch,
        e2 > group_at(groups_after_commit(s, gid, e1, t1), gid).epoch,
    ensures
        group_at(s, gid).epoch < e1 < e2,
        group_at(groups_after_commit(s, gid, e1, t1), gid).epoch == e1,
        group_at(
            groups_after_commit(groups_after_commit(s, gid, e1, t1), gid, e2, t2),
            gid,
        ).epoch == e2,
{
    lemma_groups_after_commit_distinct(s, gid, e1, t1);
    let s1 = groups_after_commit(s, gid, e1, t1);
    lemma_groups_after_commit_distinct(s1, gid, e2, t2);
}

/// Law: once every membership binding a client to a group is removed (or
/// none exists), that group is absent from the client's group listing, and
/// a fetch without an explicit group filter returns none of the group's
/// messages. Only another active membership for the same pair keeps them
/// visible.
pub proof fn lemma_removed_membership_hides_group(
    ms: Seq<MembershipModel>,
    gs: Seq<GroupModel>,
    msgs: Seq<MessageModel>,
    client_id: u128,
    group_id: u128,
    include_read: bool,
)
    requires
        !is_active_member(ms, client_id, group_id),
    ensures
        forall|k: int|
            0 <= k < keep_rev(gs, group_visible_to(ms, client_id)).len() ==> (#[trigger] keep_rev(
                gs,
                group_visible_to(ms, client_id),
            )[k]).id != group_id,
        forall|k: int|
            0 <= k < keep(msgs, message_visible_to(ms, client_id, None, include_read)).len()
                ==> (#[trigger] keep(
                msgs,
                message_visible_to(ms, client_id, None, include_read),
            )[k]).group_id != group_id,
{
    let gp = group_visible_to(ms, client_id);
    let groups_seen = keep_rev(gs, gp);
    assert forall|k: int| 0 <= k < groups_seen.len() implies (#[trigger] groups_seen[k]).id
        != group_id by {
        assert(groups_seen.contains(groups_seen[k]));
        lemma_keep_rev_contains(gs, gp, groups_seen[k]);
        assert(gp(groups_seen[k]));
    }
    let mp = message_visible_to(ms, client_id, None, include_read);
    let messages_seen = keep(msgs, mp);
    assert forall|k: int| 0 <= k < messages_seen.len() implies (
    #[trigger] messages_seen[k]).group_id != group_id by {
        assert(messages_seen.contains(messages_seen[k]));
        lemma_keep_contains(msgs, mp, messages_seen[k]);
        assert(mp(messages_seen[k]));
    }
}

/// Law: a stored client record is read back unchanged; in particular the
/// credential bytes return byte-identical.
pub proof fn lemma_client_round_trip(s: Seq<ClientModel>, c: ClientModel)
    requires
        distinct_client_ids(s),
        !has_client(s, c.id),
    ensures
        distinct_client_ids(s.push(c)),
        has_client(s.push(c), c.id),
        client_at(s.push(c), c.id) == c,
        client_at(s.push(c), c.id).credential == c.credential,
{
    let s1 = s.push(c);
    assert forall|i: int, j: int| 0 <= i < j < s1.len() implies (#[trigger] s1[i]).id != (
    #[trigger] s1[j]).id by {
        if j < s.len() {
            assert(s1[i] == s[i] && s1[j] == s[j]);
        } else {
            assert(s1[j] == c && s1[i] == s[i]);
        }
    }
    lemma_client_index_is(s1, c.id, s.len() as int);
}

/// Law: a stored key package is read back unchanged; in particular the
/// key-package bytes return byte-identical.
pub proof fn lemma_key_package_round_trip(s: Seq<KeyPackageModel>, k: KeyPackageModel)
    requires
        distinct_key_package_ids(s),
        !has_key_package(s, k.id),
    ensures
        distinct_key_package_ids(s.push(k)),
        has_key_package(s.push(k), k.id),
        key_package_at(s.push(k), k.id) == k,
        key_package_at(s.push(k), k.id).data == k.data,
{
    let s1 = s.push(k);
    assert forall|i: int, j: int| 0 <= i < j < s1.len() implies (#[trigger] s1[i]).id != (
    #[trigger] s1[j]).id by {
        if j < s.len() {
            assert(s1[i] == s[i] && s1[j] == s[j]);
        } else {
            assert(s1[j] == k && s1[i] == s[i]);
        }
    }
    lemma_key_package_index_is(s1, k.id, s.len() as int);
}

/// Law: a stored group is read back unchanged; in particular the group
/// state blob returns byte-identical.
pub proof fn lemma_group_round_trip(s: Seq<GroupModel>, g: GroupModel)
    requires
        distinct_group_ids(s),
        !has_group(s, g.id),
    ensures
        distinct_group_ids(s.push(g)),
        has_group(s.push(g), g.id),
        group_at(s.push(g), g.id) == g,
        group_at(s.push(g), g.id).state == g.state,
{
    let s1 = s.push(g);
    assert forall|i: int, j: int| 0 <= i < j < s1.len() implies (#[trigger] s1[i]).id != (
    #[trigger] s1[j]).id by {
        if j < s.len() {
            assert(s1[i] == s[i] && s1[j] == s[j]);
        } else {
            assert(s1[j] == g && s1[i] == s[i]);
        }
    }
    lemma_group_index_is(s1, g.id, s.len() as int);
}

/// Law: a stored message comes back from a fetch unchanged — the proposal,
/// commit or welcome payload it carries is byte-identical. A message fetched
/// under its own group's filter is the last element of the result (fetch
/// returns oldest first), provided it is unread or read messages are
/// included.
pub proof fn lemma_message_round_trip(
    msgs: Seq<MessageModel>,
    ms: Seq<MembershipModel>,
    m: MessageModel,
    client_id: u128,
    include_read: bool,
)
    requires
        include_read || !m.read,
    ensures
        ({
            let r = keep(
                msgs.push(m),
                message_visible_to(ms, client_id, Some(m.group_id), include_read),
            );
            &&& r.len() > 0
            &&& r.last() == m
        }),
{
    let p = message_visible_to(ms, client_id, Some(m.group_id), include_read);
    lemma_keep_push(msgs, p, m);
    assert(p(m));
}

} // verus!
