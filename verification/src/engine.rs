//! Plain-value model of the engine-side inputs the authorizer reads: the
//! roster, the group context's extension list, and the proposal batch.
//! The enclosing engine owns the originals; the authorizer is a pure
//! function of these values.

use vstd::prelude::*;

verus! {

/// The wire tag of the member credential this system owns.
pub const FIREFLY_CREDENTIAL_TYPE: u16 = 32001;

/// The wire tag of the group role policy extension this system owns.
pub const FIREFLY_ROSTER_EXTENSION_TYPE: u16 = 32000;

/// The wire tag of the add-user custom proposal.
pub const ADD_USER_PROPOSAL_TYPE: u16 = 30001;

/// The wire tag of the remove-user custom proposal.
pub const REMOVE_USER_PROPOSAL_TYPE: u16 = 30002;

/// The wire tag of the add-channel custom proposal.
pub const ADD_CHANNEL_PROPOSAL_TYPE: u16 = 30003;

/// The wire tag of the remove-channel custom proposal.
pub const REMOVE_CHANNEL_PROPOSAL_TYPE: u16 = 30004;

/// Whether the batch is being filtered while preparing a local commit or
/// while validating a received one. The rule table is currently
/// direction-independent.
#[derive(Copy, Clone, PartialEq, Eq, Structural, Debug)]
pub enum CommitDirection {
    Send,
    Receive,
}

/// The author of the commit under validation: an existing member by leaf
/// index, or a joiner committing from outside the group.
#[derive(Copy, Clone, PartialEq, Eq, Structural, Debug)]
pub enum CommitSource {
    ExistingMember(u32),
    NewMember,
}

/// The sender recorded on one proposal.
#[derive(Copy, Clone, PartialEq, Eq, Structural, Debug)]
pub enum Sender {
    Member(u32),
    External(u32),
    NewMemberProposal,
    NewMemberCommit,
}

/// How a proposal reached the batch: carried inside the commit, referenced
/// from an earlier broadcast, or injected locally.
#[derive(Clone, PartialEq, Eq, Debug)]
pub enum ProposalSource {
    ByValue,
    ByReference(Vec<u8>),
    Local,
}

/// Mathematical model of a proposal's provenance.
#[verifier::ext_equal]
pub enum ProposalSourceView {
    ByValue,
    ByReference(Seq<u8>),
    Local,
}

impl View for ProposalSource {
    type V = ProposalSourceView;

    open spec fn view(&self) -> ProposalSourceView {
        match self {
            ProposalSource::ByValue => ProposalSourceView::ByValue,
            ProposalSource::ByReference(r) => ProposalSourceView::ByReference(r@),
            ProposalSource::Local => ProposalSourceView::Local,
        }
    }
}

/// One typed, opaque extension of the group context.
#[derive(Clone, PartialEq, Eq, Debug)]
pub struct Extension {
    pub extension_type: u16,
    pub extension_data: Vec<u8>,
}

/// Mathematical model of an extension.
#[verifier::ext_equal]
pub struct ExtensionView {
    pub extension_type: u16,
    pub extension_data: Seq<u8>,
}

impl View for Extension {
    type V = ExtensionView;

    open spec fn view(&self) -> ExtensionView {
        ExtensionView {
            extension_type: self.extension_type,
            extension_data: self.extension_data@,
        }
    }
}

/// The slice of the engine's group context this system reads: its
/// extension list.
#[derive(Clone, PartialEq, Eq, Debug)]
pub struct GroupContext {
    pub extensions: Vec<Extension>,
}

impl View for GroupContext {
    type V = Seq<ExtensionView>;

    open spec fn view(&self) -> Seq<ExtensionView> {
        self.extensions@.map_values(|e: Extension| e@)
    }
}

/// A member's identity slot as the engine exposes it: an opaque credential
/// of some kind.
#[derive(Clone, PartialEq, Eq, Debug)]
pub enum EngineCredential {
    Basic { identity: Vec<u8> },
    X509 { data: Vec<u8> },
    Custom { credential_type: u16, data: Vec<u8> },
}

/// Mathematical model of an engine credential.
#[verifier::ext_equal]
pub enum EngineCredentialView {
    Basic { identity: Seq<u8> },
    X509 { data: Seq<u8> },
    Custom { credential_type: u16, data: Seq<u8> },
}

impl View for EngineCredential {
    type V = EngineCredentialView;

    open spec fn view(&self) -> EngineCredentialView {
        match self {
            EngineCredential::Basic { identity } => EngineCredentialView::Basic {
                identity: identity@,
            },
            EngineCredential::X509 { data } => EngineCredentialView::X509 { data: data@ },
            EngineCredential::Custom { credential_type, data } => EngineCredentialView::Custom {
                credential_type: *credential_type,
                data: data@,
            },
        }
    }
}

/// One member of the roster: its leaf index and its credential.
#[derive(Clone, PartialEq, Eq, Debug)]
pub struct Member {
    pub index: u32,
    pub credential: EngineCredential,
}

/// Mathematical model of a roster member.
#[verifier::ext_equal]
pub struct MemberView {
    pub index: u32,
    pub credential: EngineCredentialView,
}

impl View for Member {
    type V = MemberView;

    open spec fn view(&self) -> MemberView {
        MemberView { index: self.index, credential: self.credential@ }
    }
}

/// The queryable view of current members, by leaf index.
#[derive(Clone, PartialEq, Eq, Debug)]
pub struct Roster {
    pub members: Vec<Member>,
}

impl View for Roster {
    type V = Seq<MemberView>;

    open spec fn view(&self) -> Seq<MemberView> {
        self.members@.map_values(|m: Member| m@)
    }
}

/// The first member carrying the index, if any.
pub open spec fn spec_member_with_index(ms: Seq<MemberView>, idx: u32) -> Option<MemberView>
    decreases ms.len(),
{
    if ms.len() == 0 {
        None
    } else if ms[0].index == idx {
        Some(ms[0])
    } else {
        spec_member_with_index(ms.skip(1), idx)
    }
}

impl Roster {
    /// Looks the index up among the members, first match first.
    pub fn member_with_index(&self, idx: u32) -> (r: Option<&Member>)
        ensures
            match r {
                Some(m) => spec_member_with_index(self@, idx) == Some(m@),
                None => (spec_member_with_index(self@, idx) is None),
            },
    {
        proof {
            assert(self@.skip(0) =~= self@);
        }
        let mut i: usize = 0;
        while i < self.members.len()
            invariant
                i <= self.members@.len(),
                spec_member_with_index(self@, idx) == spec_member_with_index(
                    self@.skip(i as int),
                    idx,
                ),
            decreases self.members@.len() - i,
        {
            proof {
                assert(self@.skip(i as int)[0] == self@[i as int]);
                assert(self@[i as int] == self.members@[i as int]@);
                assert(self@.skip(i as int).skip(1) =~= self@.skip(i as int + 1));
            }
            if self.members[i].index == idx {
                return Some(&self.members[i]);
            }
            i = i + 1;
        }
        proof {
            assert(self@.skip(i as int) =~= Seq::<MemberView>::empty());
        }
        None
    }
}

/// The first extension carrying the type, if any.
pub open spec fn spec_find_extension(exts: Seq<ExtensionView>, ty: u16) -> Option<ExtensionView>
    decreases exts.len(),
{
    if exts.len() == 0 {
        None
    } else if exts[0].extension_type == ty {
        Some(exts[0])
    } else {
        spec_find_extension(exts.skip(1), ty)
    }
}

impl GroupContext {
    /// Looks the extension type up in the list, first match first.
    pub fn find_extension(&self, ty: u16) -> (r: Option<&Extension>)
        ensures
            match r {
                Some(e) => spec_find_extension(self@, ty) == Some(e@),
                None => (spec_find_extension(self@, ty) is None),
            },
    {
        proof {
            assert(self@.skip(0) =~= self@);
        }
        let mut i: usize = 0;
        while i < self.extensions.len()
            invariant
                i <= self.extensions@.len(),
                spec_find_extension(self@, ty) == spec_find_extension(self@.skip(i as int), ty),
            decreases self.extensions@.len() - i,
        {
            proof {
                assert(self@.skip(i as int)[0] == self@[i as int]);
                assert(self@[i as int] == self.extensions@[i as int]@);
                assert(self@.skip(i as int).skip(1) =~= self@.skip(i as int + 1));
            }
            if self.extensions[i].extension_type == ty {
                return Some(&self.extensions[i]);
            }
            i = i + 1;
        }
        proof {
            assert(self@.skip(i as int) =~= Seq::<ExtensionView>::empty());
        }
        None
    }
}

/// One candidate change of group state, read-only to this system; the
/// closed set of kinds forces an explicit policy decision for each.
#[derive(Clone, PartialEq, Eq, Debug)]
pub enum Proposal {
    Add { key_package: Vec<u8> },
    Remove { to_remove: u32 },
    Update { new_public_key: Vec<u8> },
    Psk { psk_id: Vec<u8> },
    ReInit { group_id: Vec<u8> },
    ExternalInit { kem_output: Vec<u8> },
    GroupContextExtensions { extensions: Vec<Extension> },
    Custom { proposal_type: u16, data: Vec<u8> },
}

/// Mathematical model of a proposal.
#[verifier::ext_equal]
pub enum ProposalView {
    Add { key_package: Seq<u8> },
    Remove { to_remove: u32 },
    Update { new_public_key: Seq<u8> },
    Psk { psk_id: Seq<u8> },
    ReInit { group_id: Seq<u8> },
    ExternalInit { kem_output: Seq<u8> },
    GroupContextExtensions { extensions: Seq<ExtensionView> },
    Custom { proposal_type: u16, data: Seq<u8> },
}

impl View for Proposal {
    type V = ProposalView;

    open spec fn view(&self) -> ProposalView {
        match self {
            Proposal::Add { key_package } => ProposalView::Add { key_package: key_package@ },
            Proposal::Remove { to_remove } => ProposalView::Remove { to_remove: *to_remove },
            Proposal::Update { new_public_key } => ProposalView::Update {
                new_public_key: new_public_key@,
            },
            Proposal::Psk { psk_id } => ProposalView::Psk { psk_id: psk_id@ },
            Proposal::ReInit { group_id } => ProposalView::ReInit { group_id: group_id@ },
            Proposal::ExternalInit { kem_output } => ProposalView::ExternalInit {
                kem_output: kem_output@,
            },
            Proposal::GroupContextExtensions { extensions } => {
                ProposalView::GroupContextExtensions {
                    extensions: extensions@.map_values(|e: Extension| e@),
                }
            },
            Proposal::Custom { proposal_type, data } => ProposalView::Custom {
                proposal_type: *proposal_type,
                data: data@,
            },
        }
    }
}

/// One batch entry: the proposal, its sender, and its provenance.
#[derive(Clone, PartialEq, Eq, Debug)]
pub struct ProposalEntry {
    pub proposal: Proposal,
    pub sender: Sender,
    pub source: ProposalSource,
}

/// Mathematical model of a batch entry.
#[verifier::ext_equal]
pub struct ProposalEntryView {
    pub proposal: ProposalView,
    pub sender: Sender,
    pub source: ProposalSourceView,
}

impl View for ProposalEntry {
    type V = ProposalEntryView;

    open spec fn view(&self) -> ProposalEntryView {
        ProposalEntryView { proposal: self.proposal@, sender: self.sender, source: self.source@ }
    }
}

/// An ordered batch of candidate proposals, built fresh per commit or
/// receive cycle.
#[derive(Clone, PartialEq, Eq, Debug)]
pub struct ProposalBundle {
    pub entries: Vec<ProposalEntry>,
}

impl View for ProposalBundle {
    type V = Seq<ProposalEntryView>;

    open spec fn view(&self) -> Seq<ProposalEntryView> {
        self.entries@.map_values(|e: ProposalEntry| e@)
    }
}

impl ProposalBundle {
    /// An empty batch.
    pub fn new() -> (r: Self)
        ensures
            r@ == Seq::<ProposalEntryView>::empty(),
    {
        let r = ProposalBundle { entries: Vec::new() };
        proof {
            assert(r@ =~= Seq::<ProposalEntryView>::empty());
        }
        r
    }

    /// Appends one entry, keeping the order of those already present.
    pub fn add(&mut self, proposal: Proposal, sender: Sender, source: ProposalSource)
        ensures
            final(self)@ == old(self)@.push(
                ProposalEntryView { proposal: proposal@, sender, source: source@ },
            ),
    {
        let ghost oldv = self@;
        let entry = ProposalEntry { proposal, sender, source };
        let ghost ev = entry@;
        self.entries.push(entry);
        proof {
            assert(self@ =~= oldv.push(ev));
        }
    }

    /// How many entries the batch holds.
    pub fn len(&self) -> (r: usize)
        ensures
            r == self@.len(),
    {
        self.entries.len()
    }

    /// The entry at `i`.
    pub fn get(&self, i: usize) -> (r: Option<&ProposalEntry>)
        ensures
            i < self@.len() ==> (r matches Some(e) && e@ == self@[i as int]),
            i >= self@.len() ==> r is None,
    {
        if i < self.entries.len() {
            Some(&self.entries[i])
        } else {
            None
        }
    }
}

/// Equality of two byte strings.
pub fn bytes_eq(a: &Vec<u8>, b: &Vec<u8>) -> (r: bool)
    ensures
        r == (a@ == b@),
{
    if a.len() != b.len() {
        return false;
    }
    let mut i: usize = 0;
    while i < a.len()
        invariant
            i <= a@.len(),
            a@.len() == b@.len(),
            forall|j: int| 0 <= j < i ==> a@[j] == b@[j],
        decreases a@.len() - i,
    {
        if a[i] != b[i] {
            return false;
        }
        i = i + 1;
    }
    proof {
        assert(a@ =~= b@);
    }
    true
}

/// The payload of the add-user custom proposal.
#[derive(Clone, PartialEq, Eq, Debug)]
pub struct AddUserProposal {
    pub channel_id: u8,
    pub username: Vec<u8>,
}

/// The payload of the remove-user custom proposal.
#[derive(Clone, PartialEq, Eq, Debug)]
pub struct RemoveUserProposal {
    pub channel_id: u8,
    pub username: Vec<u8>,
}

/// The payload of the add-message custom proposal.
#[derive(Clone, PartialEq, Eq, Debug)]
pub struct AddMessageProposal {
    pub channel_id: u8,
    pub content: Vec<u8>,
}

} // verus!
