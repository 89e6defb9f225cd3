//! The general properties of the authorizer, stated and proved over the
//! same spec functions its contracts use.

use vstd::prelude::*;
use crate::engine::CommitSource;
use crate::engine::ExtensionView;
use crate::engine::MemberView;
use crate::engine::ProposalEntryView;
use crate::engine::ProposalView;
use crate::engine::Sender;
use crate::engine::FIREFLY_ROSTER_EXTENSION_TYPE;
use crate::engine::spec_find_extension;
use crate::engine::spec_member_with_index;
use crate::error::AuthorizationError;
use crate::permissions::UserPermission;
use crate::permissions::spec_has_permission;
use crate::policy::FireflyGroupContextView;
use crate::rules::spec_entry_check;
use crate::rules::spec_filter;
use crate::rules::spec_filter_entries;
use crate::rules::spec_sender_resolution;

verus! {

/// The predicate a batch entry must satisfy to survive filtering.
pub open spec fn spec_kept_pred(
    policy: FireflyGroupContextView,
    roster: Seq<MemberView>,
) -> spec_fn(ProposalEntryView) -> bool {
    |entry: ProposalEntryView|
        spec_entry_check(policy, roster, entry) == Ok::<bool, AuthorizationError>(true)
}

/// An Add proposal from a resolvable sender is kept exactly when that
/// sender's resolved role grants the add-user permission.
pub proof fn lemma_add_kept_iff_permitted(
    policy: FireflyGroupContextView,
    roster: Seq<MemberView>,
    entry: ProposalEntryView,
)
    requires
        spec_sender_resolution(policy, roster, entry.sender) is Ok,
        entry.proposal matches ProposalView::Add { .. },
    ensures
        spec_entry_check(policy, roster, entry) == Ok::<bool, AuthorizationError>(
            spec_has_permission(
                spec_sender_resolution(policy, roster, entry.sender)->Ok_0.1,
                UserPermission::AddUser,
            ),
        ),
{
}

/// A Remove proposal from a resolvable sender is kept exactly when that
/// sender's resolved role grants the remove-user permission.
pub proof fn lemma_remove_kept_iff_permitted(
    policy: FireflyGroupContextView,
    roster: Seq<MemberView>,
    entry: ProposalEntryView,
)
    requires
        spec_sender_resolution(policy, roster, entry.sender) is Ok,
        entry.proposal matches ProposalView::Remove { .. },
    ensures
        spec_entry_check(policy, roster, entry) == Ok::<bool, AuthorizationError>(
            spec_has_permission(
                spec_sender_resolution(policy, roster, entry.sender)->Ok_0.1,
                UserPermission::RemoveUser,
            ),
        ),
{
}

/// When filtering succeeds, its output is exactly the input filtered by
/// the keep predicate: only drops, never reorders or mutates.
pub proof fn lemma_filter_entries_is_filter(
    policy: FireflyGroupContextView,
    roster: Seq<MemberView>,
    entries: Seq<ProposalEntryView>,
)
    requires
        spec_filter_entries(policy, roster, entries) is Ok,
    ensures
        spec_filter_entries(policy, roster, entries)->Ok_0 == entries.filter(
            spec_kept_pred(policy, roster),
        ),
    decreases entries.len(),
{
    let pred = spec_kept_pred(policy, roster);
    reveal_with_fuel(Seq::filter, 3);
    if entries.len() == 0 {
        assert(entries =~= Seq::<ProposalEntryView>::empty());
        assert(entries.filter(pred) =~= Seq::<ProposalEntryView>::empty());
        assert(spec_filter_entries(policy, roster, entries)->Ok_0 =~= entries.filter(pred));
    } else {
        let e0 = entries[0];
        let tail = entries.skip(1);
        lemma_filter_entries_is_filter(policy, roster, tail);
        Seq::<ProposalEntryView>::filter_distributes_over_add(seq![e0], tail, pred);
        assert(seq![e0] + tail =~= entries);
        assert(seq![e0].drop_last() =~= Seq::<ProposalEntryView>::empty());
        assert(seq![e0].filter(pred) == if pred(e0) {
            seq![e0]
        } else {
            Seq::<ProposalEntryView>::empty()
        });
        let keep = spec_entry_check(policy, roster, e0)->Ok_0;
        if keep {
            assert(pred(e0));
            assert(seq![e0] + tail.filter(pred) =~= entries.filter(pred));
        } else {
            assert(!pred(e0));
            assert(Seq::<ProposalEntryView>::empty() + tail.filter(pred) =~= tail.filter(pred));
            assert(tail.filter(pred) =~= entries.filter(pred));
        }
    }
}

/// Every entry of a successful filtering's output satisfies the keep
/// predicate.
pub proof fn lemma_filter_entries_all_kept(
    policy: FireflyGroupContextView,
    roster: Seq<MemberView>,
    entries: Seq<ProposalEntryView>,
)
    requires
        spec_filter_entries(policy, roster, entries) is Ok,
    ensures
        forall|i: int|
            0 <= i < spec_filter_entries(policy, roster, entries)->Ok_0.len()
                ==> spec_entry_check(
                policy,
                roster,
                #[trigger] spec_filter_entries(policy, roster, entries)->Ok_0[i],
            ) == Ok::<bool, AuthorizationError>(true),
{
    lemma_filter_entries_is_filter(policy, roster, entries);
    let pred = spec_kept_pred(policy, roster);
    let out = spec_filter_entries(policy, roster, entries)->Ok_0;
    assert forall|i: int| 0 <= i < out.len() implies spec_entry_check(
        policy,
        roster,
        #[trigger] out[i],
    ) == Ok::<bool, AuthorizationError>(true) by {
        entries.lemma_filter_pred(pred, i);
    }
}

/// A batch whose every entry satisfies the keep predicate filters to
/// itself.
pub proof fn lemma_filter_entries_fixed(
    policy: FireflyGroupContextView,
    roster: Seq<MemberView>,
    s: Seq<ProposalEntryView>,
)
    requires
        forall|i: int|
            0 <= i < s.len() ==> spec_entry_check(policy, roster, #[trigger] s[i]) == Ok::<
                bool,
                AuthorizationError,
            >(true),
    ensures
        spec_filter_entries(policy, roster, s) == Ok::<
            Seq<ProposalEntryView>,
            AuthorizationError,
        >(s),
    decreases s.len(),
{
    if s.len() == 0 {
        assert(Seq::<ProposalEntryView>::empty() =~= s);
    } else {
        assert(spec_entry_check(policy, roster, s[0]) == Ok::<bool, AuthorizationError>(true));
        assert forall|i: int| 0 <= i < s.skip(1).len() implies spec_entry_check(
            policy,
            roster,
            #[trigger] s.skip(1)[i],
        ) == Ok::<bool, AuthorizationError>(true) by {
            assert(s.skip(1)[i] == s[i + 1]);
        }
        lemma_filter_entries_fixed(policy, roster, s.skip(1));
        assert(seq![s[0]] + s.skip(1) =~= s);
    }
}

/// Filtering is idempotent: re-filtering an already-filtered batch under
/// the same author, roster, and context yields the same batch.
pub proof fn lemma_filter_idempotent(
    source: CommitSource,
    roster: Seq<MemberView>,
    exts: Seq<ExtensionView>,
    entries: Seq<ProposalEntryView>,
)
    requires
        spec_filter(source, roster, exts, entries) is Ok,
    ensures
        spec_filter(source, roster, exts, spec_filter(source, roster, exts, entries)->Ok_0)
            == spec_filter(source, roster, exts, entries),
{
    let out = spec_filter(source, roster, exts, entries)->Ok_0;
    match source {
        CommitSource::NewMember => {},
        CommitSource::ExistingMember(author) => {
            match crate::rules::spec_policy_of(exts) {
                Err(e) => {},
                Ok(policy) => {
                    lemma_filter_entries_all_kept(policy, roster, entries);
                    lemma_filter_entries_fixed(policy, roster, out);
                },
            }
        },
    }
}

/// A missing policy extension fails the whole call, whatever the batch
/// holds: never a per-entry drop.
pub proof fn lemma_missing_policy_fails(
    source: CommitSource,
    roster: Seq<MemberView>,
    exts: Seq<ExtensionView>,
    entries: Seq<ProposalEntryView>,
)
    requires
        source matches CommitSource::ExistingMember(_),
        spec_find_extension(exts, FIREFLY_ROSTER_EXTENSION_TYPE) is None,
    ensures
        spec_filter(source, roster, exts, entries) == Err::<
            Seq<ProposalEntryView>,
            AuthorizationError,
        >(AuthorizationError::PolicyMissing),
{
}

/// A proposal sender absent from the roster fails the whole call, however
/// late in the batch its entry stands, provided no earlier entry fails:
/// never a per-entry drop.
pub proof fn lemma_absent_sender_fails(
    policy: FireflyGroupContextView,
    roster: Seq<MemberView>,
    entries: Seq<ProposalEntryView>,
    i: int,
)
    requires
        0 <= i < entries.len(),
        entries[i].sender matches Sender::Member(idx) && spec_member_with_index(roster, idx)
            is None,
        forall|j: int| 0 <= j < i ==> spec_entry_check(policy, roster, #[trigger] entries[j]) is Ok,
    ensures
        spec_filter_entries(policy, roster, entries) == Err::<
            Seq<ProposalEntryView>,
            AuthorizationError,
        >(AuthorizationError::UnauthorizedSender),
    decreases i,
{
    if i == 0 {
        assert(spec_entry_check(policy, roster, entries[0]) == Err::<bool, AuthorizationError>(
            AuthorizationError::UnauthorizedSender,
        ));
    } else {
        assert(spec_entry_check(policy, roster, entries[0]) is Ok);
        assert forall|j: int| 0 <= j < i - 1 implies spec_entry_check(
            policy,
            roster,
            #[trigger] entries.skip(1)[j],
        ) is Ok by {
            assert(entries.skip(1)[j] == entries[j + 1]);
        }
        assert(entries.skip(1)[i - 1] == entries[i]);
        lemma_absent_sender_fails(policy, roster, entries.skip(1), i - 1);
    }
}

} // verus!
