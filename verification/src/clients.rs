//! The client table as the sessions read it: who is enrolled in which slot,
//! under which key and with which role.
//!
//! This is the copy in memory. It moves only once the part has moved.

use km43::Role::{Admin, Owner, Viewer};
use km43::{Allocation, PublicKey, SlotView};
use vstd::prelude::*;

use crate::idents::{ClientId, Generation};

verus! {

/// Slots in the table.
pub const SLOTS: usize = 8;

/// What a slot may do.
#[derive(Debug, Clone, Copy, PartialEq, Eq, Structural)]
pub enum Role {
    /// Everything.
    Owner,
    /// Everything but the network, the cloud and approving others.
    Admin,
    /// Nothing that writes, and nothing private.
    Viewer,
}

/// May write a configuration section.
pub const WRITE_CONFIG: u16 = 1;

/// May write the network and cloud sections.
pub const WRITE_NETWORK_AND_CLOUD: u16 = 2;

/// May set the clock.
pub const SET_CLOCK: u16 = 8;

/// May read what is private.
pub const READ_PRIVATE: u16 = 32;

impl Role {
    /// The mask a role is handed.
    pub open spec fn spec_mask(self) -> u16 {
        match self {
            Role::Owner => 0b1111_1111,
            Role::Admin => 0b0111_1101,
            Role::Viewer => 0,
        }
    }

    /// The mask a role is handed: a slot's mask is its role's and nothing
    /// else.
    pub fn mask(self) -> (r: u16)
        ensures
            r == self.spec_mask(),
    {
        match self {
            Role::Owner => 0b1111_1111,
            Role::Admin => 0b0111_1101,
            Role::Viewer => 0,
        }
    }

    /// The number a role is kept as.
    pub open spec fn spec_number(self) -> u8 {
        match self {
            Role::Owner => 1,
            Role::Admin => 2,
            Role::Viewer => 3,
        }
    }
}

/// What an occupied slot holds.
pub struct Occupant {
    /// The enrolled client's public key.
    pub client: [u8; 32],
    /// The key its opening messages are tagged under.
    pub tag_key: [u8; 32],
    /// Which enrolment of the slot this is.
    pub generation: Generation,
    /// What it may do.
    pub role: Role,
    /// What it said it is.
    pub kind: u8,
    /// The label it paired under.
    pub label: String,
}

/// What the choice of a slot reads of an occupant: its key, its label and its
/// role.
pub struct OccupantModel {
    /// The public key.
    pub client: Seq<u8>,
    /// The label.
    pub label: Seq<char>,
    /// The role.
    pub role: Role,
}

/// What an occupied slot holds, in the mathematical sense.
#[verifier::ext_equal]
pub struct SlotModel {
    /// The enrolled client's public key.
    pub client: Seq<u8>,
    /// The key its opening messages are tagged under.
    pub tag_key: Seq<u8>,
    /// Which enrolment of the slot this is.
    pub generation: Generation,
    /// What it may do.
    pub role: Role,
    /// What it said it is.
    pub kind: u8,
    /// The label it paired under.
    pub label: Seq<char>,
}

impl View for Occupant {
    type V = SlotModel;

    open spec fn view(&self) -> SlotModel {
        SlotModel {
            client: self.client@,
            tag_key: self.tag_key@,
            generation: self.generation,
            role: self.role,
            kind: self.kind,
            label: self.label@,
        }
    }
}

/// What a slot that may be empty holds.
pub open spec fn slot_model(slot: Option<Occupant>) -> Option<SlotModel> {
    match slot {
        Some(occupant) => Some(occupant@),
        None => None,
    }
}

/// Which slot an enrolment is given.
#[derive(Debug, Clone, Copy, PartialEq, Eq, Structural)]
pub enum Place {
    /// The slot that already holds this client's key, keeping its role.
    SameKey(ClientId, Role),
    /// The lowest free slot the role may take.
    Free(ClientId, Role),
    /// The lowest admin slot with this very label.
    Reclaim(ClientId),
    /// Nothing to allocate.
    Full,
}

impl Place {
    /// The slot and the role it is taken with, in the mathematical sense.
    pub open spec fn spec_slot(self) -> Option<(ClientId, Role)> {
        match self {
            Place::SameKey(id, role) => Some((id, role)),
            Place::Free(id, role) => Some((id, role)),
            Place::Reclaim(id) => Some((id, Role::Admin)),
            Place::Full => None,
        }
    }

    /// The slot and the role it is taken with.
    pub fn slot(self) -> (r: Option<(ClientId, Role)>)
        ensures
            r == self.spec_slot(),
    {
        match self {
            Place::SameKey(id, role) => Some((id, role)),
            Place::Free(id, role) => Some((id, role)),
            Place::Reclaim(id) => Some((id, Role::Admin)),
            Place::Full => None,
        }
    }
}

/// The most slots that may hold an admin.
pub const MAX_ADMINS: usize = 6;

/// What a slot is looked for by.
pub enum Wanted {
    /// The key it holds.
    Key(Seq<u8>),
    /// That it holds nothing.
    Empty,
    /// That it is an admin's with this label.
    Label(Seq<char>),
}

/// Whether a slot is one that is looked for.
pub open spec fn fits(slot: Option<OccupantModel>, wanted: Wanted) -> bool {
    match (slot, wanted) {
        (Some(held), Wanted::Key(key)) => held.client == key,
        (Some(held), Wanted::Label(label)) => held.role == Role::Admin && held.label == label,
        (None, Wanted::Empty) => true,
        _ => false,
    }
}

/// The lowest slot at or after `i` that is looked for.
pub open spec fn lowest(slots: Seq<Option<OccupantModel>>, wanted: Wanted, i: nat) -> Option<nat>
    decreases slots.len() - i,
{
    if i >= slots.len() {
        None
    } else if fits(slots[i as int], wanted) {
        Some(i)
    } else {
        lowest(slots, wanted, i + 1)
    }
}

/// The lowest slot looked for is a slot of the table, and one that is looked
/// for.
pub proof fn lemma_lowest(slots: Seq<Option<OccupantModel>>, wanted: Wanted, i: nat)
    ensures
        lowest(slots, wanted, i) matches Some(at) ==> i <= at < slots.len() && fits(
            slots[at as int],
            wanted,
        ),
        lowest(slots, wanted, i) is None ==> forall|j: int|
            i <= j < slots.len() ==> !fits(#[trigger] slots[j], wanted),
    decreases slots.len() - i,
{
    if i < slots.len() && !fits(slots[i as int], wanted) {
        lemma_lowest(slots, wanted, i + 1);
    }
}

/// How many of the first `n` slots hold a role.
pub open spec fn holding(slots: Seq<Option<OccupantModel>>, role: Role, n: nat) -> nat
    decreases n,
{
    if n == 0 {
        0
    } else {
        holding(slots, role, (n - 1) as nat) + if slots[n - 1] matches Some(held) && held.role
            == role {
            1nat
        } else {
            0
        }
    }
}

/// Which slot of a table an enrolment with this key, if it is known yet, and
/// this label is given: the slot that holds the key; else the lowest free one,
/// as the owner where there is none and as an admin while there is room for
/// one; else the lowest admin's with this very label; else none.
pub open spec fn allocation(
    slots: Seq<Option<OccupantModel>>,
    key: Option<Seq<u8>>,
    label: Seq<char>,
) -> Place {
    let same = match key {
        Some(key) => lowest(slots, Wanted::Key(key), 0),
        None => None,
    };
    let free = lowest(slots, Wanted::Empty, 0);
    let named = lowest(slots, Wanted::Label(label), 0);
    let owned = holding(slots, Role::Owner, slots.len()) > 0;
    match same {
        Some(i) => Place::SameKey(ClientId::spec_of((i + 1) as u32), slots[i as int]->0.role),
        None => if free is Some && !owned {
            Place::Free(ClientId::spec_of((free->0 + 1) as u32), Role::Owner)
        } else if free is Some && holding(slots, Role::Admin, slots.len()) < MAX_ADMINS {
            Place::Free(ClientId::spec_of((free->0 + 1) as u32), Role::Admin)
        } else {
            match named {
                Some(i) => Place::Reclaim(ClientId::spec_of((i + 1) as u32)),
                None => Place::Full,
            }
        },
    }
}

/// `km43::Allocation`, which slot an enrolment is given.
#[verifier::external_type_specification]
#[verifier::external_body]
pub struct ExAllocation(km43::Allocation);

/// `km43::SlotView`, a slot as the choice reads it.
#[verifier::external_type_specification]
#[verifier::external_body]
pub struct ExSlotView<'a>(km43::SlotView<'a>);

/// A slot's number and what the choice reads of its occupant.
pub uninterp spec fn view_words(view: km43::SlotView<'_>) -> (u32, Option<OccupantModel>);

/// An allocation's words: which of its four answers, the slot's number and the
/// role's.
pub uninterp spec fn allocation_words(allocation: km43::Allocation) -> (u8, u32, u8);

/// What a table's slots hold, as the choice reads them.
pub open spec fn table_of(slots: Seq<Option<SlotModel>>) -> Seq<Option<OccupantModel>> {
    slots.map_values(|slot: Option<SlotModel>| read_of(slot))
}

/// What the slots of a table hold.
pub open spec fn slots_of(slots: Seq<Option<Occupant>>) -> Seq<Option<SlotModel>> {
    slots.map_values(|slot: Option<Occupant>| slot_model(slot))
}

/// The bytes of a key, where there is one.
pub open spec fn key_bytes(key: Option<&[u8; 32]>) -> Option<Seq<u8>> {
    match key {
        Some(key) => Some(key@),
        None => None,
    }
}

/// A place, as the choice hands it out: which of its four answers, the slot's
/// number and the role's.
pub open spec fn place_words(place: Place) -> (u8, u32, u8) {
    match place {
        Place::SameKey(id, role) => (1, id@, role.spec_number()),
        Place::Free(id, role) => (2, id@, role.spec_number()),
        Place::Reclaim(id) => (3, id@, Role::Admin.spec_number()),
        Place::Full => (0, 0, 0),
    }
}

/// What the choice reads of an occupant.
pub open spec fn read_of(held: Option<SlotModel>) -> Option<OccupantModel> {
    match held {
        Some(held) => Some(
            OccupantModel { client: held.client, label: held.label, role: held.role },
        ),
        None => None,
    }
}

/// A slot as the choice reads it: `km43::SlotView`, with a `km43::Occupant`
/// where it holds one.
///
/// Trusted: the view carries the slot's number and the occupant's key, label
/// and role, as [`view_words`] names them. There is one for every number a slot
/// can have.
#[verifier::external_body]
fn view_of(id: ClientId, slot: &Option<Occupant>) -> (r: Option<SlotView<'_>>)
    ensures
        r is Some,
        view_words(r->0) == (id@, read_of(slot_model(*slot))),
{
    let held = slot.as_ref().map(|o| km43::Occupant {
        key: PublicKey::from_bytes(o.client),
        label: &o.label,
        role: match o.role { Role::Owner => Owner, Role::Admin => Admin, Role::Viewer => Viewer },
    });
    km43::ClientId::new(id.get()).map(|client_id| SlotView { client_id, held })
}

/// What the slots of a list of views hold.
pub open spec fn viewed(views: Seq<SlotView<'_>>) -> Seq<Option<OccupantModel>> {
    views.map_values(|view: SlotView<'_>| view_words(view).1)
}

/// Choose a slot: `km43::Allocation::choose`.
///
/// Trusted: among slots numbered from one in their order, the choice is the
/// one [`allocation`] states.
#[verifier::external_body]
fn choose_slot(views: &[SlotView<'_>], key: Option<&[u8; 32]>, label: &str) -> (r: Allocation)
    requires
        views@.len() == SLOTS,
        forall|i: int| 0 <= i < views@.len() ==> view_words(#[trigger] views@[i]).0 == i + 1,
    ensures
        allocation_words(r) == place_words(allocation(viewed(views@), key_bytes(key), label@)),
{
    Allocation::choose(views, key.map(|key| PublicKey::from_bytes(*key)).as_ref(), label)
}

/// Read an allocation: the variants of `km43::Allocation` and the fields of
/// `km43::Placement`.
///
/// Trusted: they are what [`allocation_words`] names.
#[verifier::external_body]
fn words_of(allocation: Allocation) -> (r: (u8, u32, u8))
    ensures
        r == allocation_words(allocation),
{
    match allocation {
        Allocation::SameKey(at) => (1, at.client_id.get(), at.role as u8),
        Allocation::Free(at) => (2, at.client_id.get(), at.role as u8),
        Allocation::Reclaim(at) => (3, at.client_id.get(), at.role as u8),
        Allocation::Full => (0, 0, 0),
    }
}

/// Two places with the same words are the same place.
proof fn lemma_words_tell_places_apart(a: Place, b: Place)
    requires
        place_words(a) == place_words(b),
    ensures
        a == b,
{
    match (a.spec_slot(), b.spec_slot()) {
        (Some(x), Some(y)) => ClientId::same_number(x.0, y.0),
        _ => {},
    }
}

/// A table nobody is enrolled in.
pub open spec fn nobody() -> Seq<Option<SlotModel>> {
    Seq::new(SLOTS as nat, |i: int| None::<SlotModel>)
}

/// The client table in memory.
pub struct Clients {
    slots: Vec<Option<Occupant>>,
}

impl View for Clients {
    type V = Seq<Option<SlotModel>>;

    closed spec fn view(&self) -> Seq<Option<SlotModel>> {
        slots_of(self.slots@)
    }
}

/// What a slot of a table holds.
pub open spec fn occupant_of(slots: Seq<Option<SlotModel>>, id: ClientId) -> Option<SlotModel> {
    if 1 <= id@ <= slots.len() {
        slots[id@ - 1]
    } else {
        None
    }
}

/// How many of the first `n` slots are occupied.
pub open spec fn occupied_in(slots: Seq<Option<SlotModel>>, n: nat) -> nat
    decreases n,
{
    if n == 0 {
        0
    } else {
        occupied_in(slots, (n - 1) as nat) + if slots[n - 1] is Some {
            1nat
        } else {
            0
        }
    }
}

/// The slots of the first `n` that are occupied, lowest first, each with the
/// key its opening messages are tagged under.
pub open spec fn keys_in(slots: Seq<Option<SlotModel>>, n: nat) -> Seq<(u32, Seq<u8>)>
    decreases n,
{
    if n == 0 {
        Seq::empty()
    } else {
        match slots[n - 1] {
            Some(occupant) => keys_in(slots, (n - 1) as nat).push((n as u32, occupant.tag_key)),
            None => keys_in(slots, (n - 1) as nat),
        }
    }
}

/// Whether a list of keys is the one that is meant.
pub open spec fn keyed(keys: Seq<(u32, [u8; 32])>, meant: Seq<(u32, Seq<u8>)>) -> bool {
    &&& keys.len() == meant.len()
    &&& forall|i: int|
        0 <= i < keys.len() ==> (#[trigger] keys[i]).0 == meant[i].0 && keys[i].1@ == meant[i].1
}

impl Clients {
    #[verifier::type_invariant]
    spec fn whole(self) -> bool {
        self.slots@.len() == SLOTS
    }

    /// How many slots there are: always eight.
    pub fn len(&self) -> (r: usize)
        ensures
            r == self@.len(),
            r == SLOTS,
    {
        proof {
            use_type_invariant(self);
        }
        self.slots.len()
    }

    /// Nobody enrolled.
    pub fn new() -> (r: Self)
        ensures
            r@ == nobody(),
    {
        let mut slots: Vec<Option<Occupant>> = Vec::new();
        while slots.len() < SLOTS
            invariant
                slots@.len() <= SLOTS,
                forall|i: int| 0 <= i < slots@.len() ==> (#[trigger] slots@[i]) is None,
            decreases SLOTS - slots@.len(),
        {
            slots.push(None);
        }
        proof {
            assert(slots_of(slots@) =~= nobody());
        }
        Clients { slots }
    }

    /// What a slot holds.
    pub fn occupant(&self, id: ClientId) -> (r: Option<&Occupant>)
        ensures
            match r {
                Some(occupant) => occupant_of(self@, id) == Some(occupant@),
                None => occupant_of(self@, id) is None,
            },
    {
        let n: u32 = id.get();
        if n as usize > self.slots.len() {
            return None;
        }
        self.slots[n as usize - 1].as_ref()
    }

    /// How many slots are occupied.
    pub fn enrolled(&self) -> (r: usize)
        ensures
            r == occupied_in(self@, self@.len()),
    {
        let mut n: usize = 0;
        let mut i: usize = 0;
        while i < self.slots.len()
            invariant
                i <= self.slots@.len(),
                n <= i,
                n == occupied_in(self@, i as nat),
            decreases self.slots@.len() - i,
        {
            if self.slots[i].is_some() {
                n = n + 1;
            }
            i = i + 1;
        }
        n
    }

    /// The occupied slots, lowest first, each with the key its opening
    /// messages are tagged under.
    pub fn occupied(&self) -> (r: Vec<(u32, [u8; 32])>)
        ensures
            keyed(r@, keys_in(self@, self@.len())),
    {
        proof {
            use_type_invariant(self);
        }
        let mut keys: Vec<(u32, [u8; 32])> = Vec::new();
        let mut i: usize = 0;
        while i < self.slots.len()
            invariant
                i <= self.slots@.len() == SLOTS,
                keyed(keys@, keys_in(self@, i as nat)),
            decreases self.slots@.len() - i,
        {
            if let Some(occupant) = &self.slots[i] {
                keys.push((i as u32 + 1, occupant.tag_key));
            }
            i = i + 1;
        }
        keys
    }

    /// Which slot an enrolment with this key, if it is known yet, and this
    /// label is given.
    pub fn place(&self, key: Option<&[u8; 32]>, label: &str) -> (r: Place)
        ensures
            r == allocation(table_of(self@), key_bytes(key), label@),
    {
        proof {
            use_type_invariant(self);
        }
        let mut views: Vec<SlotView<'_>> = Vec::new();
        let mut i: usize = 0;
        while i < self.slots.len()
            invariant
                i <= self.slots@.len() == SLOTS,
                views@.len() == i,
                forall|j: int|
                    0 <= j < i ==> view_words(#[trigger] views@[j]) == (
                        (j + 1) as u32,
                        read_of(self@[j]),
                    ),
            decreases self.slots@.len() - i,
        {
            if let Some(id) = ClientId::new(i as u32 + 1) {
                if let Some(view) = view_of(id, &self.slots[i]) {
                    views.push(view);
                }
            }
            i = i + 1;
        }
        proof {
            assert(viewed(views@) =~= table_of(self@));
        }
        let (which, id, role) = words_of(choose_slot(views.as_slice(), key, label));
        let role = if role == 1 {
            Role::Owner
        } else if role == 2 {
            Role::Admin
        } else {
            Role::Viewer
        };
        proof {
            broadcast use ClientId::lemma_of;

            let slots = table_of(self@);
            if let Some(wanted) = key_bytes(key) {
                lemma_lowest(slots, Wanted::Key(wanted), 0);
            }
            lemma_lowest(slots, Wanted::Empty, 0);
            lemma_lowest(slots, Wanted::Label(label@), 0);
        }
        match ClientId::new(id) {
            Some(id) => {
                let r = if which == 1 {
                    Place::SameKey(id, role)
                } else if which == 2 {
                    Place::Free(id, role)
                } else {
                    Place::Reclaim(id)
                };
                proof {
                    let wanted = key_bytes(key);
                    lemma_words_tell_places_apart(
                        allocation(table_of(self@), wanted, label@),
                        r,
                    );
                }
                r
            },
            None => Place::Full,
        }
    }

    /// A slot landed on the part: hold what it holds.
    pub fn seat(&mut self, id: ClientId, occupant: Occupant)
        requires
            1 <= id@ <= SLOTS,
        ensures
            final(self)@ == old(self)@.update(id@ - 1, Some(occupant@)),
    {
        proof {
            use_type_invariant(&*self);
        }
        let i: usize = id.get() as usize - 1;
        self.slots[i] = Some(occupant);
        proof {
            assert(self@ =~= old(self)@.update(id@ - 1, Some(occupant@)));
        }
    }

    /// Every slot was freed on the part.
    pub fn free_all(&mut self)
        ensures
            final(self)@ == nobody(),
    {
        *self = Clients::new();
    }
}

/// A slot that is given is one of the table's: the one that holds the key with
/// the role it has, a free one that becomes an owner's or an admin's, or an
/// admin's with this very label. Nothing is given only when there is no such
/// slot, and a table without an owner always has an owner's to give while a
/// slot is free.
pub proof fn law_a_slot_given_is_one_to_give(
    slots: Seq<Option<OccupantModel>>,
    key: Option<Seq<u8>>,
    label: Seq<char>,
)
    requires
        slots.len() == SLOTS,
    ensures
        match allocation(slots, key, label) {
            Place::SameKey(id, role) => {
                &&& 1 <= id@ <= SLOTS
                &&& slots[id@ - 1] matches Some(held) && Some(held.client) == key && held.role
                    == role
            },
            Place::Free(id, role) => {
                &&& 1 <= id@ <= SLOTS
                &&& slots[id@ - 1] is None
                &&& role == if holding(slots, Role::Owner, SLOTS as nat) == 0 {
                    Role::Owner
                } else {
                    Role::Admin
                }
                &&& forall|j: int| 0 <= j < id@ - 1 ==> (#[trigger] slots[j]) is Some
            },
            Place::Reclaim(id) => {
                &&& 1 <= id@ <= SLOTS
                &&& slots[id@ - 1] matches Some(held) && held.role == Role::Admin && held.label
                    == label
            },
            Place::Full => holding(slots, Role::Owner, SLOTS as nat) == 0 ==> forall|j: int|
                0 <= j < SLOTS ==> (#[trigger] slots[j]) is Some,
        },
{
    broadcast use ClientId::lemma_of;

    if let Some(wanted) = key {
        lemma_lowest(slots, Wanted::Key(wanted), 0);
    }
    lemma_lowest(slots, Wanted::Empty, 0);
    lemma_lowest(slots, Wanted::Label(label), 0);
    lemma_before_lowest(slots, Wanted::Empty, 0);
}

/// No slot before the lowest one looked for is one that is.
proof fn lemma_before_lowest(slots: Seq<Option<OccupantModel>>, wanted: Wanted, i: nat)
    ensures
        lowest(slots, wanted, i) matches Some(at) ==> forall|j: int|
            i <= j < at ==> !fits(#[trigger] slots[j], wanted),
    decreases slots.len() - i,
{
    if i < slots.len() && !fits(slots[i as int], wanted) {
        lemma_before_lowest(slots, wanted, i + 1);
    }
}

/// The choice of a slot goes in order: the lowest slot that holds the key,
/// whatever else there is; else the lowest free one, the owner's where nobody
/// is the owner, an admin's while fewer than six are; else the lowest admin's
/// with this very label; and nothing only where none of these is there.
pub proof fn law_the_choice_of_a_slot_goes_in_order(
    slots: Seq<Option<OccupantModel>>,
    key: Option<Seq<u8>>,
    label: Seq<char>,
)
    requires
        slots.len() == 8,
    ensures
        ({
            let place = allocation(slots, key, label);
            let known = exists|i: int|
                0 <= i < 8 && key is Some && (#[trigger] slots[i]) is Some && slots[i]->0.client
                    == key->0;
            let room = exists|i: int| 0 <= i < 8 && (#[trigger] slots[i]) is None;
            let owned = exists|i: int|
                0 <= i < 8 && (#[trigger] slots[i]) is Some && slots[i]->0.role == Role::Owner;
            let admins = slots.filter(
                |slot: Option<OccupantModel>| slot is Some && slot->0.role == Role::Admin,
            ).len();
            let named = exists|i: int|
                0 <= i < 8 && (#[trigger] slots[i]) is Some && slots[i]->0.role == Role::Admin
                    && slots[i]->0.label == label;
            &&& place is SameKey <==> known
            &&& place is Free <==> !known && room && (!owned || admins < 6)
            &&& place is Reclaim <==> !known && !(room && (!owned || admins < 6)) && named
            &&& place is Full <==> !known && !(room && (!owned || admins < 6)) && !named
            &&& place matches Place::SameKey(id, _) ==> forall|j: int|
                0 <= j < id@ - 1 ==> ((#[trigger] slots[j]) is Some ==> Some(slots[j]->0.client)
                    != key)
            &&& place matches Place::Free(_, role) ==> role == if owned {
                Role::Admin
            } else {
                Role::Owner
            }
            &&& place matches Place::Reclaim(id) ==> (forall|j: int|
                0 <= j < id@ - 1 ==> ((#[trigger] slots[j]) is Some && slots[j]->0.role
                    == Role::Admin ==> slots[j]->0.label != label)) && place.spec_slot() == Some(
                (id, Role::Admin),
            )
        }),
{
    broadcast use ClientId::lemma_of;

    if let Some(wanted) = key {
        lemma_lowest(slots, Wanted::Key(wanted), 0);
        lemma_before_lowest(slots, Wanted::Key(wanted), 0);
    }
    lemma_lowest(slots, Wanted::Empty, 0);
    lemma_lowest(slots, Wanted::Label(label), 0);
    lemma_before_lowest(slots, Wanted::Label(label), 0);
    law_holders_are_counted(slots, Role::Admin, 8);
    lemma_some_hold(slots, Role::Owner, 8);
    assert(slots.take(8) =~= slots);
    let same = match key {
        Some(key) => lowest(slots, Wanted::Key(key), 0),
        None => None,
    };
    if let Some(i) = same {
        assert(fits(slots[i as int], Wanted::Key(key->0)));
        assert(slots[i as int] is Some);
    } else if let Some(wanted) = key {
        assert forall|i: int| 0 <= i < 8 && (#[trigger] slots[i]) is Some implies slots[i]->0.client
            != wanted by {
            assert(!fits(slots[i], Wanted::Key(wanted)));
        }
    }
    match lowest(slots, Wanted::Empty, 0) {
        Some(i) => {
            assert(slots[i as int] is None);
        },
        None => {
            assert forall|i: int| 0 <= i < 8 implies (#[trigger] slots[i]) is Some by {
                assert(!fits(slots[i], Wanted::Empty));
            }
        },
    }
    match lowest(slots, Wanted::Label(label), 0) {
        Some(i) => {
            assert(slots[i as int] is Some);
        },
        None => {
            assert forall|i: int|
                0 <= i < 8 && (#[trigger] slots[i]) is Some && slots[i]->0.role
                    == Role::Admin implies slots[i]->0.label != label by {
                assert(!fits(slots[i], Wanted::Label(label)));
            }
        },
    }
    if let Place::SameKey(id, _) = allocation(slots, key, label) {
        assert forall|j: int| 0 <= j < id@ - 1 && (#[trigger] slots[j]) is Some implies Some(
            slots[j]->0.client,
        ) != key by {
            assert(!fits(slots[j], Wanted::Key(key->0)));
        }
    }
    if let Place::Reclaim(id) = allocation(slots, key, label) {
        assert forall|j: int|
            0 <= j < id@ - 1 && (#[trigger] slots[j]) is Some && slots[j]->0.role
                == Role::Admin implies slots[j]->0.label != label by {
            assert(!fits(slots[j], Wanted::Label(label)));
        }
    }
}

/// The holders of a role are counted: as many as there are slots with it.
pub proof fn law_holders_are_counted(slots: Seq<Option<OccupantModel>>, role: Role, n: nat)
    requires
        n <= slots.len(),
    ensures
        holding(slots, role, n) == slots.take(n as int).filter(
            |slot: Option<OccupantModel>| slot is Some && slot->0.role == role,
        ).len(),
    decreases n,
{
    let held = |slot: Option<OccupantModel>| slot is Some && slot->0.role == role;
    reveal(Seq::filter);
    if n > 0 {
        law_holders_are_counted(slots, role, (n - 1) as nat);
        assert(slots.take(n as int).drop_last() =~= slots.take(n - 1));
        assert(slots.take(n as int).last() == slots[n - 1]);
    }
}

/// A role is held by somebody exactly when its holders are counted above none.
proof fn lemma_some_hold(slots: Seq<Option<OccupantModel>>, role: Role, n: nat)
    requires
        n <= slots.len(),
    ensures
        holding(slots, role, n) > 0 <==> exists|i: int|
            0 <= i < n && (#[trigger] slots[i]) is Some && slots[i]->0.role == role,
    decreases n,
{
    if n > 0 {
        lemma_some_hold(slots, role, (n - 1) as nat);
        if slots[n - 1] is Some && slots[n - 1]->0.role == role {
            assert(slots[n - 1] is Some);
        }
    }
}

/// An owner reaches all eight bits of the mask; an admin all but two, the
/// network and cloud sections and the approval of others; a viewer none.
pub proof fn law_a_role_reaches_what_it_may(bits: u16)
    ensures
        bits <= 255 ==> Role::Owner.spec_mask() & bits == bits,
        bits <= 255 ==> (Role::Admin.spec_mask() & bits == bits <==> bits & 130 == 0),
        Role::Viewer.spec_mask() & bits == bits <==> bits == 0,
        bits > 255 ==> Role::Owner.spec_mask() & bits != bits && Role::Admin.spec_mask() & bits
            != bits,
{
    assert(bits <= 255 ==> 0b1111_1111u16 & bits == bits) by (bit_vector);
    assert(bits <= 255 ==> (0b0111_1101u16 & bits == bits <==> bits & 130 == 0)) by (bit_vector);
    assert(0u16 & bits == bits <==> bits == 0) by (bit_vector);
    assert(bits > 255 ==> 0b1111_1111u16 & bits != bits && 0b0111_1101u16 & bits != bits)
        by (bit_vector);
}

/// The occupied slots are all there, lowest first, each with its own number and
/// key, and no empty one is among them.
pub proof fn law_the_occupied_slots_are_listed(slots: Seq<Option<SlotModel>>, n: nat)
    requires
        n <= slots.len() <= 8,
    ensures
        keys_in(slots, n).len() == occupied_in(slots, n),
        forall|i: int|
            0 <= i < n && (#[trigger] slots[i]) is Some ==> keys_in(slots, n).contains(
                ((i + 1) as u32, slots[i]->0.tag_key),
            ),
        forall|k: int|
            #![trigger keys_in(slots, n)[k]]
            0 <= k < keys_in(slots, n).len() ==> {
                let (number, key) = keys_in(slots, n)[k];
                &&& 1 <= number <= n
                &&& slots[number - 1] matches Some(held) && held.tag_key == key
            },
        forall|j: int, k: int|
            0 <= j < k < keys_in(slots, n).len() ==> (#[trigger] keys_in(slots, n)[j]).0 < (
            #[trigger] keys_in(slots, n)[k]).0,
    decreases n,
{
    if n > 0 {
        let m = (n - 1) as nat;
        law_the_occupied_slots_are_listed(slots, m);
        let before = keys_in(slots, m);
        let after = keys_in(slots, n);
        assert forall|i: int| 0 <= i < n && (#[trigger] slots[i]) is Some implies after.contains(
            ((i + 1) as u32, slots[i]->0.tag_key),
        ) by {
            let pair = ((i + 1) as u32, slots[i]->0.tag_key);
            if i < m {
                let k = choose|k: int| 0 <= k < before.len() && before[k] == pair;
                assert(after[k] == pair);
            } else {
                assert(after[before.len() as int] == pair);
            }
        }
        assert forall|k: int|
            #![trigger after[k]]
            0 <= k < after.len() implies {
            let (number, key) = after[k];
            &&& 1 <= number <= n
            &&& slots[number - 1] matches Some(held) && held.tag_key == key
        } by {
            if k < before.len() {
                assert(after[k] == before[k]);
            }
        }
        assert forall|j: int, k: int| 0 <= j < k < after.len() implies (#[trigger] after[j]).0 < (
        #[trigger] after[k]).0 by {
            assert(after[j] == before[j]);
            if k < before.len() {
                assert(after[k] == before[k]);
            }
        }
    }
}

/// Seating somebody in an empty slot makes one more, in an occupied one no
/// more; and the slot then holds them and no other slot changes.
pub proof fn law_a_slot_seated_is_counted(slots: Seq<Option<SlotModel>>, at: int, held: SlotModel, n: nat)
    requires
        0 <= at < slots.len(),
        n <= slots.len(),
    ensures
        occupied_in(slots.update(at, Some(held)), n) == occupied_in(slots, n) + if at < n
            && slots[at] is None {
            1nat
        } else {
            0
        },
    decreases n,
{
    if n > 0 {
        law_a_slot_seated_is_counted(slots, at, held, (n - 1) as nat);
    }
}

} // verus!
