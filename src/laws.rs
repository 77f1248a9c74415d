use vstd::prelude::*;

use crate::digest::md5_hex;
use crate::gis::{
    add_identity_data, add_identity_outcome, auto_swap_target, author_of, canonical, email_of,
    identity_of, plain_words, position_of, swap_identity_data, swap_identity_outcome,
    swap_removed, valid_index, workspace_at, DataModel, IdentityModel, Outcome, WorkspaceModel,
};
use crate::text::tokens;

verus! {

/// An identity's id is the digest of "{author} {email}", so the same text
/// gives the same identity, with the same id, whatever registry it is added to.
pub proof fn lemma_id_is_deterministic(d1: DataModel, d2: DataModel, text: Seq<char>)
    requires
        add_identity_outcome(d1, text) == Outcome::Added,
        add_identity_outcome(d2, text) == Outcome::Added,
    ensures
        add_identity_data(d1, text).identities.last() == add_identity_data(
            d2,
            text,
        ).identities.last(),
        add_identity_data(d1, text).identities.last().id == md5_hex(
            canonical(author_of(text), email_of(text)),
        ),
{
}

/// Adding the same text a second time is refused as a duplicate and changes
/// nothing.
pub proof fn lemma_add_identity_twice(d: DataModel, text: Seq<char>)
    requires
        add_identity_outcome(d, text) == Outcome::Added,
    ensures
        add_identity_outcome(add_identity_data(d, text), text) == Outcome::DuplicateIdentity,
        add_identity_data(add_identity_data(d, text), text) == add_identity_data(d, text),
{
    let d1 = add_identity_data(d, text);
    assert(d1.identities[d1.identities.len() - 1] == identity_of(text));
}

/// Text without an `@`, or without a word free of one, adds nothing.
pub proof fn lemma_malformed_identity_adds_nothing(d: DataModel, text: Seq<char>)
    requires
        !text.contains('@') || plain_words(tokens(text)).len() == 0,
    ensures
        add_identity_outcome(d, text) != Outcome::Added,
        add_identity_data(d, text) == d,
{
}

/// The first identity added becomes the current one; later ones leave the
/// current identity as it was.
pub proof fn lemma_first_identity_becomes_current(d: DataModel, text: Seq<char>)
    ensures
        d.current is None && add_identity_outcome(d, text) == Outcome::Added
            ==> add_identity_data(d, text).current == Some(identity_of(text).id),
        d.current is Some ==> add_identity_data(d, text).current == d.current,
{
}

/// Removing element `idx` (1-based) of `s` leaves one element fewer, puts the
/// former last element in its place, and keeps every other element where it was.
pub proof fn lemma_swap_removed<T>(s: Seq<T>, idx: int)
    requires
        1 <= idx <= s.len(),
    ensures
        swap_removed(s, idx - 1).len() == s.len() - 1,
        idx < s.len() ==> swap_removed(s, idx - 1)[idx - 1] == s.last(),
        forall|j: int|
            0 <= j < s.len() - 1 && j != idx - 1 ==> #[trigger] swap_removed(s, idx - 1)[j]
                == s[j],
{
}

/// No two identities of the registry are equal.
pub open spec fn distinct_identities(ids: Seq<IdentityModel>) -> bool {
    forall|a: int, b: int| 0 <= a < b < ids.len() ==> ids[a] != ids[b]
}

/// Adding an identity keeps the identities distinct, and so does removing one.
pub proof fn lemma_identities_stay_distinct(d: DataModel, text: Seq<char>, idx: int)
    requires
        distinct_identities(d.identities),
    ensures
        distinct_identities(add_identity_data(d, text).identities),
        1 <= idx <= d.identities.len() ==> distinct_identities(
            swap_removed(d.identities, idx - 1),
        ),
{
    let n = add_identity_data(d, text).identities;
    if add_identity_outcome(d, text) == Outcome::Added {
        assert forall|a: int, b: int| 0 <= a < b < n.len() implies n[a] != n[b] by {
            if b == n.len() - 1 {
                assert(d.identities[a] == n[a]);
            }
        }
    }
    if 1 <= idx <= d.identities.len() {
        let r = swap_removed(d.identities, idx - 1);
        let last = d.identities.len() - 1;
        assert forall|a: int, b: int| 0 <= a < b < r.len() implies r[a] != r[b] by {
            let ia = if a == idx - 1 { last } else { a };
            let ib = if b == idx - 1 { last } else { b };
            assert(r[a] == d.identities[ia] && r[b] == d.identities[ib]);
            if ia < ib {
                assert(d.identities[ia] != d.identities[ib]);
            } else {
                assert(d.identities[ib] != d.identities[ia]);
            }
        }
    }
}

/// Selecting a valid identity makes it current exactly when the version-control
/// tool took its name and email; otherwise the current identity stays.
pub proof fn lemma_swap_needs_configuration(d: DataModel, idx: usize, configured: bool)
    requires
        valid_index(idx, d.identities.len() as int),
    ensures
        configured ==> swap_identity_data(d, idx, configured).current == Some(
            d.identities[idx - 1].id,
        ),
        !configured ==> swap_identity_data(d, idx, configured).current == d.current,
        swap_identity_outcome(d, idx, configured) == Outcome::Swapped <==> configured,
{
}

/// In the directory of a workspace bound to an identity other than the
/// current one, that identity is selected; in a directory of no workspace,
/// nothing is.
pub proof fn lemma_auto_swap(d: DataModel, cwd: Seq<char>, w: int, i: int)
    requires
        d.identities.len() <= usize::MAX,
        d.current is Some,
        0 <= w < d.workspaces.len(),
        d.workspaces[w].path == cwd,
        forall|j: int| 0 <= j < w ==> d.workspaces[j].path != cwd,
        position_of(d.identities, d.workspaces[w].identity) == Some(i),
        d.identities[i].id != d.current->0,
    ensures
        auto_swap_target(d, cwd) == Some(i + 1),
        swap_identity_data(d, (i + 1) as usize, true).current == Some(
            d.workspaces[w].identity,
        ),
{
    lemma_first_workspace(d.workspaces, cwd, w);
    lemma_position_in_range(d.identities, d.workspaces[w].identity);
}

/// Outside every workspace's directory the current identity is left alone.
pub proof fn lemma_no_auto_swap_elsewhere(d: DataModel, cwd: Seq<char>)
    requires
        forall|j: int| 0 <= j < d.workspaces.len() ==> d.workspaces[j].path != cwd,
    ensures
        auto_swap_target(d, cwd) is None,
{
    lemma_no_workspace(d.workspaces, cwd);
}

/// The first workspace at `cwd` is the one `workspace_at` finds.
proof fn lemma_first_workspace(ws: Seq<WorkspaceModel>, cwd: Seq<char>, w: int)
    requires
        0 <= w < ws.len(),
        ws[w].path == cwd,
        forall|j: int| 0 <= j < w ==> ws[j].path != cwd,
    ensures
        workspace_at(ws, cwd) == Some(w),
    decreases ws.len(),
{
    if w < ws.len() - 1 {
        lemma_first_workspace(ws.drop_last(), cwd, w);
    } else {
        lemma_no_workspace(ws.drop_last(), cwd);
    }
}

/// Where no workspace lies at `cwd`, `workspace_at` finds none.
proof fn lemma_no_workspace(ws: Seq<WorkspaceModel>, cwd: Seq<char>)
    requires
        forall|j: int| 0 <= j < ws.len() ==> ws[j].path != cwd,
    ensures
        workspace_at(ws, cwd) is None,
    decreases ws.len(),
{
    if ws.len() > 0 {
        lemma_no_workspace(ws.drop_last(), cwd);
    }
}

/// `position_of` finds an index in range, holding the id looked for.
proof fn lemma_position_in_range(ids: Seq<IdentityModel>, id: Seq<char>)
    ensures
        position_of(ids, id) matches Some(i) ==> 0 <= i < ids.len() && ids[i].id == id,
    decreases ids.len(),
{
    if ids.len() > 0 {
        lemma_position_in_range(ids.drop_last(), id);
    }
}

} // verus!
