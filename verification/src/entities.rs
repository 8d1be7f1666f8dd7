//! The five entities of the delivery service and their mathematical models.
//!
//! Identifiers are plain 128-bit tokens and timestamps are microseconds since
//! the Unix epoch (see `ids` and `clock`). Payloads are opaque byte vectors:
//! the service stores and relays them without interpretation. Each entity has
//! a spec-level model (`...Model`) over `Seq` values; contracts everywhere
//! speak of those models through the entities' views.

use vstd::prelude::*;

verus! {

// ---------------------------------------------------------------------------
// Spec models
// ---------------------------------------------------------------------------

/// Model of a registered client device.
#[verifier::ext_equal]
pub struct ClientModel {
    pub id: u128,
    pub user_id: u128,
    pub credential: Seq<u8>,
    pub scheme: Seq<char>,
    pub device_name: Seq<char>,
    pub last_seen: i64,
    pub created_at: i64,
    pub init_key: Option<Seq<u8>>,
}

/// Model of a published one-time key package.
#[verifier::ext_equal]
pub struct KeyPackageModel {
    pub id: u128,
    pub client_id: u128,
    pub data: Seq<u8>,
    pub created_at: i64,
    pub used: bool,
}

/// Model of a group.
#[verifier::ext_equal]
pub struct GroupModel {
    pub id: u128,
    pub creator_id: u128,
    pub epoch: u64,
    pub state: Option<Seq<u8>>,
    pub created_at: i64,
    pub updated_at: i64,
    pub is_active: bool,
}

/// Model of a membership row (soft-deleted history preserved).
#[verifier::ext_equal]
pub struct MembershipModel {
    pub id: u128,
    pub client_id: u128,
    pub group_id: u128,
    pub role: Seq<char>,
    pub added_at: i64,
    pub removed_at: Option<i64>,
}

/// Model of a message's variant-specific payload.
#[verifier::ext_equal]
pub enum MessageBodyModel {
    Proposal { data: Seq<u8>, proposal_type: Seq<char> },
    Commit { data: Seq<u8>, epoch: u64 },
    Welcome { data: Seq<u8>, recipients: Seq<u128> },
}

/// Model of a stored message.
#[verifier::ext_equal]
pub struct MessageModel {
    pub id: u128,
    pub group_id: u128,
    pub sender_id: u128,
    pub created_at: i64,
    pub read: bool,
    pub body: MessageBodyModel,
}

// ---------------------------------------------------------------------------
// Entities
// ---------------------------------------------------------------------------

/// A registered client device of a user. Immutable once created except
/// `last_seen`, which is set to the current time on each read access.
#[derive(Debug)]
pub struct Client {
    pub id: u128,
    pub user_id: u128,
    pub credential: Vec<u8>,
    pub scheme: String,
    pub device_name: String,
    pub last_seen: i64,
    pub created_at: i64,
    pub init_key: Option<Vec<u8>>,
}

/// A published one-time key package. `used` moves from `false` to `true`
/// exactly once and never reverts.
#[derive(Debug)]
pub struct KeyPackage {
    pub id: u128,
    pub client_id: u128,
    pub data: Vec<u8>,
    pub created_at: i64,
    pub used: bool,
}

/// A group: an epoch counter beside an opaque serialized state blob. The
/// epoch strictly increases, advanced only by accepted commits.
#[derive(Debug)]
pub struct Group {
    pub id: u128,
    pub creator_id: u128,
    pub epoch: u64,
    pub state: Option<Vec<u8>>,
    pub created_at: i64,
    pub updated_at: i64,
    pub is_active: bool,
}

/// A membership of a client in a group. Removal is a soft delete: once
/// `removed_at` is set the row stays, keeping history visible.
#[derive(Debug)]
pub struct Membership {
    pub id: u128,
    pub client_id: u128,
    pub group_id: u128,
    pub role: String,
    pub added_at: i64,
    pub removed_at: Option<i64>,
}

/// The variant-specific payload of a message. Exactly one payload is
/// populated per variant by construction.
#[derive(Debug)]
pub enum MessageBody {
    /// A proposed change to the group, with its proposal-type tag.
    Proposal { data: Vec<u8>, proposal_type: String },
    /// An accepted batch of proposals carrying the epoch it advances the
    /// group to.
    Commit { data: Vec<u8>, epoch: u64 },
    /// Joining material addressed to the listed recipients.
    Welcome { data: Vec<u8>, recipients: Vec<u128> },
}

/// A message stored for delivery within a group. Immutable once stored
/// except the `read` flag.
#[derive(Debug)]
pub struct Message {
    pub id: u128,
    pub group_id: u128,
    pub sender_id: u128,
    pub created_at: i64,
    pub read: bool,
    pub body: MessageBody,
}

// ---------------------------------------------------------------------------
// Views
// ---------------------------------------------------------------------------

impl View for Client {
    type V = ClientModel;

    open spec fn view(&self) -> ClientModel {
        ClientModel {
            id: self.id,
            user_id: self.user_id,
            credential: self.credential@,
            scheme: self.scheme@,
            device_name: self.device_name@,
            last_seen: self.last_seen,
            created_at: self.created_at,
            init_key: match self.init_key {
                Some(k) => Some(k@),
                None => None,
            },
        }
    }
}

impl DeepView for Client {
    type V = ClientModel;

    open spec fn deep_view(&self) -> ClientModel {
        self.view()
    }
}

impl View for KeyPackage {
    type V = KeyPackageModel;

    open spec fn view(&self) -> KeyPackageModel {
        KeyPackageModel {
            id: self.id,
            client_id: self.client_id,
            data: self.data@,
            created_at: self.created_at,
            used: self.used,
        }
    }
}

impl DeepView for KeyPackage {
    type V = KeyPackageModel;

    open spec fn deep_view(&self) -> KeyPackageModel {
        self.view()
    }
}

impl View for Group {
    type V = GroupModel;

    open spec fn view(&self) -> GroupModel {
        GroupModel {
            id: self.id,
            creator_id: self.creator_id,
            epoch: self.epoch,
            state: match self.state {
                Some(s) => Some(s@),
                None => None,
            },
            created_at: self.created_at,
            updated_at: self.updated_at,
            is_active: self.is_active,
        }
    }
}

impl DeepView for Group {
    type V = GroupModel;

    open spec fn deep_view(&self) -> GroupModel {
        self.view()
    }
}

impl View for Membership {
    type V = MembershipModel;

    open spec fn view(&self) -> MembershipModel {
        MembershipModel {
            id: self.id,
            client_id: self.client_id,
            group_id: self.group_id,
            role: self.role@,
            added_at: self.added_at,
            removed_at: self.removed_at,
        }
    }
}

impl DeepView for Membership {
    type V = MembershipModel;

    open spec fn deep_view(&self) -> MembershipModel {
        self.view()
    }
}

impl View for MessageBody {
    type V = MessageBodyModel;

    open spec fn view(&self) -> MessageBodyModel {
        match self {
            MessageBody::Proposal { data, proposal_type } => MessageBodyModel::Proposal {
                data: data@,
                proposal_type: proposal_type@,
            },
            MessageBody::Commit { data, epoch } => MessageBodyModel::Commit {
                data: data@,
                epoch: *epoch,
            },
            MessageBody::Welcome { data, recipients } => MessageBodyModel::Welcome {
                data: data@,
                recipients: recipients@,
            },
        }
    }
}

impl View for Message {
    type V = MessageModel;

    open spec fn view(&self) -> MessageModel {
        MessageModel {
            id: self.id,
            group_id: self.group_id,
            sender_id: self.sender_id,
            created_at: self.created_at,
            read: self.read,
            body: self.body@,
        }
    }
}

impl DeepView for Message {
    type V = MessageModel;

    open spec fn deep_view(&self) -> MessageModel {
        self.view()
    }
}

impl Message {
    /// The variant tag as text: "proposal", "commit" or "welcome".
    pub fn message_type(&self) -> (r: String)
        ensures
            self.body@ is Proposal ==> r@ == "proposal"@,
            self.body@ is Commit ==> r@ == "commit"@,
            self.body@ is Welcome ==> r@ == "welcome"@,
    {
        match &self.body {
            MessageBody::Proposal { .. } => "proposal".to_owned(),
            MessageBody::Commit { .. } => "commit".to_owned(),
            MessageBody::Welcome { .. } => "welcome".to_owned(),
        }
    }

    /// The proposal payload, where this message is a proposal.
    pub fn proposal(&self) -> (r: Option<Vec<u8>>)
        ensures
            r is Some <==> self.body@ is Proposal,
            r matches Some(v) ==> (self.body@ matches MessageBodyModel::Proposal { data, .. }
                && v@ == data),
    {
        match &self.body {
            MessageBody::Proposal { data, .. } => Some(copy_vec(data)),
            _ => None,
        }
    }

    /// The commit payload, where this message is a commit.
    pub fn commit(&self) -> (r: Option<Vec<u8>>)
        ensures
            r is Some <==> self.body@ is Commit,
            r matches Some(v) ==> (self.body@ matches MessageBodyModel::Commit { data, .. }
                && v@ == data),
    {
        match &self.body {
            MessageBody::Commit { data, .. } => Some(copy_vec(data)),
            _ => None,
        }
    }

    /// The welcome payload, where this message is a welcome.
    pub fn welcome(&self) -> (r: Option<Vec<u8>>)
        ensures
            r is Some <==> self.body@ is Welcome,
            r matches Some(v) ==> (self.body@ matches MessageBodyModel::Welcome { data, .. }
                && v@ == data),
    {
        match &self.body {
            MessageBody::Welcome { data, .. } => Some(copy_vec(data)),
            _ => None,
        }
    }

    /// The proposal-type tag, where this message is a proposal.
    pub fn proposal_type(&self) -> (r: Option<String>)
        ensures
            r is Some <==> self.body@ is Proposal,
            r matches Some(t) ==> (self.body@ matches MessageBodyModel::Proposal {
                proposal_type,
                ..
            } && t@ == proposal_type),
    {
        match &self.body {
            MessageBody::Proposal { proposal_type, .. } => Some(proposal_type.clone()),
            _ => None,
        }
    }

    /// The epoch the commit advances the group to, where this message is a
    /// commit.
    pub fn epoch(&self) -> (r: Option<u64>)
        ensures
            r is Some <==> self.body@ is Commit,
            r matches Some(e) ==> (self.body@ matches MessageBodyModel::Commit { epoch, .. }
                && e == epoch),
    {
        match &self.body {
            MessageBody::Commit { epoch, .. } => Some(*epoch),
            _ => None,
        }
    }

    /// The recipient list, where this message is a welcome.
    pub fn recipients(&self) -> (r: Option<Vec<u128>>)
        ensures
            r is Some <==> self.body@ is Welcome,
            r matches Some(v) ==> (self.body@ matches MessageBodyModel::Welcome {
                recipients,
                ..
            } && v@ == recipients),
    {
        match &self.body {
            MessageBody::Welcome { recipients, .. } => Some(copy_vec(recipients)),
            _ => None,
        }
    }
}

// ---------------------------------------------------------------------------
// Cloning
// ---------------------------------------------------------------------------

/// Copies a vector of plain values element by element.
pub fn copy_vec<T: Copy>(v: &Vec<T>) -> (r: Vec<T>)
    ensures
        r@ == v@,
{
    let mut r: Vec<T> = Vec::new();
    let mut i: usize = 0;
    while i < v.len()
        invariant
            i <= v.len(),
            r@ == v@.subrange(0, i as int),
        decreases v.len() - i,
    {
        r.push(v[i]);
        i = i + 1;
    }
    proof {
        assert(r@ =~= v@);
    }
    r
}

/// Copies an optional vector of plain values.
pub fn copy_opt_vec<T: Copy>(v: &Option<Vec<T>>) -> (r: Option<Vec<T>>)
    ensures
        (match (v, &r) {
            (Some(a), Some(b)) => a@ == b@,
            (None, None) => true,
            _ => false,
        }),
{
    match v {
        Some(a) => Some(copy_vec(a)),
        None => None,
    }
}

impl Clone for Client {
    fn clone(&self) -> (r: Self)
        ensures
            r@ == self@,
    {
        let r = Client {
            id: self.id,
            user_id: self.user_id,
            credential: copy_vec(&self.credential),
            scheme: self.scheme.clone(),
            device_name: self.device_name.clone(),
            last_seen: self.last_seen,
            created_at: self.created_at,
            init_key: copy_opt_vec(&self.init_key),
        };
        proof {
            assert(r@ =~= self@);
        }
        r
    }
}

impl Clone for KeyPackage {
    fn clone(&self) -> (r: Self)
        ensures
            r@ == self@,
    {
        let r = KeyPackage {
            id: self.id,
            client_id: self.client_id,
            data: copy_vec(&self.data),
            created_at: self.created_at,
            used: self.used,
        };
        proof {
            assert(r@ =~= self@);
        }
        r
    }
}

impl Clone for Group {
    fn clone(&self) -> (r: Self)
        ensures
            r@ == self@,
    {
        let r = Group {
            id: self.id,
            creator_id: self.creator_id,
            epoch: self.epoch,
            state: copy_opt_vec(&self.state),
            created_at: self.created_at,
            updated_at: self.updated_at,
            is_active: self.is_active,
        };
        proof {
            assert(r@ =~= self@);
        }
        r
    }
}

impl Clone for Membership {
    fn clone(&self) -> (r: Self)
        ensures
            r@ == self@,
    {
        let r = Membership {
            id: self.id,
            client_id: self.client_id,
            group_id: self.group_id,
            role: self.role.clone(),
            added_at: self.added_at,
            removed_at: self.removed_at,
        };
        proof {
            assert(r@ =~= self@);
        }
        r
    }
}

impl Clone for MessageBody {
    fn clone(&self) -> (r: Self)
        ensures
            r@ == self@,
    {
        let r = match self {
            MessageBody::Proposal { data, proposal_type } => MessageBody::Proposal {
                data: copy_vec(data),
                proposal_type: proposal_type.clone(),
            },
            MessageBody::Commit { data, epoch } => MessageBody::Commit {
                data: copy_vec(data),
                epoch: *epoch,
            },
            MessageBody::Welcome { data, recipients } => MessageBody::Welcome {
                data: copy_vec(data),
                recipients: copy_vec(recipients),
            },
        };
        proof {
            assert(r@ =~= self@);
        }
        r
    }
}

impl Clone for Message {
    fn clone(&self) -> (r: Self)
        ensures
            r@ == self@,
    {
        let r = Message {
            id: self.id,
            group_id: self.group_id,
            sender_id: self.sender_id,
            created_at: self.created_at,
            read: self.read,
            body: self.body.clone(),
        };
        proof {
            assert(r@ =~= self@);
        }
        r
    }
}

} // verus!
