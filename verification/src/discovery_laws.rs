//! What a `Discover` is told, read back out of the bytes it is answered with.

use crate::clients::{occupied_in, SlotModel};
use crate::idents::Epoch;
use crate::secret::SecretModel;
use crate::session_ask::{Next, Said};
use crate::session_model::{
    lemma_a_changed_row_is_found, lemma_a_row_carries_its_handle, SessionsModel,
};
use crate::session_state::{live_of, Addressed, Challenge, Facts, KeysModel, RowModel};
use crate::session_steps::discovery_said;
use crate::session_wire::{cbor_bool, cbor_head, cbor_pairs, discovery_image, error_image};
use crate::tick::Tick;
use vstd::prelude::*;
use vstd::utf8::encode_utf8;

verus! {

/// The length of an item's head.
pub open spec fn head_len(first: u8) -> int {
    if first % 32 < 24 {
        1
    } else if first % 32 == 24 {
        2
    } else if first % 32 == 25 {
        3
    } else {
        5
    }
}

/// The argument in the head at `at`.
pub open spec fn argument_at(bytes: Seq<u8>, at: int) -> int {
    let first = bytes[at];
    if first % 32 < 24 {
        (first % 32) as int
    } else if first % 32 == 24 {
        bytes[at + 1] as int
    } else if first % 32 == 25 {
        bytes[at + 1] * 0x100 + bytes[at + 2]
    } else {
        bytes[at + 1] * 0x100_0000 + bytes[at + 2] * 0x1_0000 + bytes[at + 3] * 0x100
            + bytes[at + 4]
    }
}

/// The length of the item at `at`: its head, and a string's bytes.
pub open spec fn item_len(bytes: Seq<u8>, at: int) -> int {
    if bytes[at] / 32 == 2 || bytes[at] / 32 == 3 {
        head_len(bytes[at]) + argument_at(bytes, at)
    } else {
        head_len(bytes[at])
    }
}

/// The value under `key` in a map of `pairs` pairs that begins at `at`.
pub open spec fn value_under(bytes: Seq<u8>, at: int, pairs: nat, key: u8) -> Option<Seq<u8>>
    decreases pairs,
{
    if pairs == 0 {
        None
    } else if bytes[at] == key {
        Some(bytes.subrange(at + 1, at + 1 + item_len(bytes, at + 1)))
    } else {
        value_under(bytes, at + 1 + item_len(bytes, at + 1), (pairs - 1) as nat, key)
    }
}

/// Where the body of a message begins: past the array's head, three numbers and
/// the map's head.
pub open spec fn body_at(bytes: Seq<u8>) -> int {
    let kind: int = 1;
    let session = kind + item_len(bytes, kind);
    let req_id = session + item_len(bytes, session);
    req_id + item_len(bytes, req_id) + 1
}

/// What the body of a message of eight pairs holds under `key`.
pub open spec fn told(bytes: Seq<u8>, key: u8) -> Option<Seq<u8>> {
    value_under(bytes, body_at(bytes), 8, key)
}

/// The bytes of a string item.
pub open spec fn string_of(item: Seq<u8>) -> Seq<u8> {
    item.skip(head_len(item[0]))
}

/// Whether bytes are one item.
spec fn whole(item: Seq<u8>) -> bool {
    item.len() > 0 && item.len() >= head_len(item[0]) && item_len(item, 0) == item.len()
}

/// An item's length does not depend on where it stands.
proof fn lemma_item_at(bytes: Seq<u8>, at: int, item: Seq<u8>)
    requires
        whole(item),
        0 <= at,
        at + item.len() <= bytes.len(),
        bytes.subrange(at, at + item.len()) == item,
    ensures
        item_len(bytes, at) == item.len(),
{
    let part = bytes.subrange(at, at + item.len());
    assert(part[0] == bytes[at]);
    assert forall|i: int| 0 <= i < item.len() implies item[i] == bytes[at + i] by {
        assert(part[i] == bytes[at + i]);
    }
}

/// A number is one item.
proof fn lemma_number(n: int)
    requires
        0 <= n < 0x1_0000_0000,
    ensures
        whole(cbor_head(0, n)),
        argument_at(cbor_head(0, n), 0) == n,
{
}

/// A string is one item, and gives its bytes back.
proof fn lemma_string(major: int, raw: Seq<u8>)
    requires
        major == 2 || major == 3,
        raw.len() < 0x100,
    ensures
        whole(cbor_head(major, raw.len() as int) + raw),
        string_of(cbor_head(major, raw.len() as int) + raw) == raw,
{
    let head = cbor_head(major, raw.len() as int);
    let item = head + raw;
    assert(item[0] == head[0]);
    if raw.len() >= 24 {
        assert(item[1] == head[1]);
    }
    assert(string_of(item) =~= raw);
}

/// Each pair of a map is found under its key.
proof fn lemma_value_under(front: Seq<u8>, pairs: Seq<(u8, Seq<u8>)>, i: int)
    requires
        0 <= i < pairs.len(),
        forall|k: int| 0 <= k < pairs.len() ==> whole((#[trigger] pairs[k]).1),
        forall|k: int| 0 <= k < i ==> (#[trigger] pairs[k]).0 != pairs[i].0,
    ensures
        value_under(front + cbor_pairs(pairs), front.len() as int, pairs.len(), pairs[i].0)
            == Some(pairs[i].1),
    decreases i,
{
    let bytes = front + cbor_pairs(pairs);
    let at = front.len() as int;
    let item = pairs[0].1;
    let rest = pairs.skip(1);
    assert(whole(pairs[0].1));
    assert(cbor_pairs(pairs) == seq![pairs[0].0] + item + cbor_pairs(rest));
    assert(bytes[at] == pairs[0].0);
    assert(bytes.subrange(at + 1, at + 1 + item.len()) =~= item);
    lemma_item_at(bytes, at + 1, item);
    if i > 0 {
        let more = front + seq![pairs[0].0] + item;
        assert(more + cbor_pairs(rest) =~= bytes);
        assert forall|k: int| 0 <= k < rest.len() implies whole((#[trigger] rest[k]).1) by {
            assert(rest[k] == pairs[k + 1]);
        }
        assert forall|k: int| 0 <= k < i - 1 implies (#[trigger] rest[k]).0 != rest[i - 1].0 by {
            assert(rest[k] == pairs[k + 1]);
        }
        lemma_value_under(more, rest, i - 1);
        assert(pairs[0].0 != pairs[i].0);
    }
}

/// A discovery's answer, read back: each value stands under its key, the flags
/// under 5 and 6.
pub proof fn law_a_discovery_reads_back(
    session: u16,
    req_id: u32,
    device_id: Seq<u8>,
    model: Seq<char>,
    provisioned: bool,
    pairing_open: bool,
    challenge: Seq<u8>,
    epoch: u32,
)
    requires
        device_id.len() == 16,
        challenge.len() == 16,
    ensures
        discovery_image(
            session,
            req_id,
            device_id,
            model,
            provisioned,
            pairing_open,
            challenge,
            epoch,
        ) is Some <==> epoch != 0 && encode_utf8(model).len() <= 64,
        discovery_image(
            session,
            req_id,
            device_id,
            model,
            provisioned,
            pairing_open,
            challenge,
            epoch,
        ) matches Some(bytes) ==> {
            &&& told(bytes, 3) matches Some(item) && string_of(item) == device_id
            &&& told(bytes, 4) matches Some(item) && string_of(item) == encode_utf8(model)
            &&& told(bytes, 5) == Some(cbor_bool(provisioned))
            &&& told(bytes, 6) == Some(cbor_bool(pairing_open))
            &&& told(bytes, 7) matches Some(item) && string_of(item) == challenge
            &&& told(bytes, 8) matches Some(item) && argument_at(item, 0) == epoch
        },
{
    reveal(discovery_image);
    let name = encode_utf8(model);
    if epoch != 0 && name.len() <= 64 {
        let pairs = seq![
            (1u8, cbor_head(0, 1)),
            (2u8, cbor_head(0, 0)),
            (3u8, cbor_head(2, device_id.len() as int) + device_id),
            (4u8, cbor_head(3, name.len() as int) + name),
            (5u8, cbor_bool(provisioned)),
            (6u8, cbor_bool(pairing_open)),
            (7u8, cbor_head(2, challenge.len() as int) + challenge),
            (8u8, cbor_head(0, epoch as int)),
        ];
        let kind = cbor_head(0, 0x80);
        let on = cbor_head(0, session as int);
        let asked = cbor_head(0, req_id as int);
        let front = cbor_head(4, 4) + kind + on + asked + cbor_head(5, 8);
        let bytes = front + cbor_pairs(pairs);
        lemma_number(0x80);
        lemma_number(session as int);
        lemma_number(req_id as int);
        lemma_number(1);
        lemma_number(0);
        lemma_number(epoch as int);
        lemma_string(2, device_id);
        lemma_string(3, name);
        lemma_string(2, challenge);
        assert(bytes.subrange(1, 1 + kind.len() as int) =~= kind);
        lemma_item_at(bytes, 1, kind);
        let second = 1 + kind.len();
        assert(bytes.subrange(second as int, (second + on.len()) as int) =~= on);
        lemma_item_at(bytes, second as int, on);
        let third = second + on.len();
        assert(bytes.subrange(third as int, (third + asked.len()) as int) =~= asked);
        lemma_item_at(bytes, third as int, asked);
        assert(body_at(bytes) == front.len());
        assert forall|k: int| 0 <= k < pairs.len() implies whole((#[trigger] pairs[k]).1) by {}
        lemma_value_under(front, pairs, 2);
        lemma_value_under(front, pairs, 3);
        lemma_value_under(front, pairs, 4);
        lemma_value_under(front, pairs, 5);
        lemma_value_under(front, pairs, 6);
        lemma_value_under(front, pairs, 7);
    }
}

/// Some slots are occupied exactly when one of them is.
proof fn lemma_some_occupied(slots: Seq<Option<SlotModel>>, n: nat)
    requires
        n <= slots.len(),
    ensures
        occupied_in(slots, n) > 0 <==> exists|i: int| 0 <= i < n && (#[trigger] slots[i]) is Some,
    decreases n,
{
    if n > 0 {
        lemma_some_occupied(slots, (n - 1) as nat);
        if slots[n - 1] is Some {
            assert(slots[n - 1] is Some);
        }
    }
}

/// Whether a message is the answer to a `Discover` that says these things: the
/// unit's own number and model, whether a client slot is occupied, whether the
/// pairing window is open, the challenge and the epoch.
pub open spec fn tells(
    said: Said,
    keys: KeysModel,
    facts: Facts<'_>,
    challenge: [u8; 16],
) -> bool {
    &&& !said.silent
    &&& said.close is None
    &&& said.note is None
    &&& said.image matches Some(bytes) && {
        &&& told(bytes, 3) matches Some(item) && string_of(item) == keys.secret->0.device_id
        &&& told(bytes, 4) matches Some(item) && string_of(item) == encode_utf8(facts.model@)
        &&& told(bytes, 5) == Some(seq![0xf5u8]) <==> exists|i: int|
            0 <= i < keys.clients.len() && (#[trigger] keys.clients[i]) is Some
        &&& told(bytes, 5) == Some(seq![0xf4u8]) <==> forall|i: int|
            0 <= i < keys.clients.len() ==> (#[trigger] keys.clients[i]) is None
        &&& told(bytes, 6) == Some(seq![0xf5u8]) <==> facts.pairing_open
        &&& told(bytes, 6) == Some(seq![0xf4u8]) <==> !facts.pairing_open
        &&& told(bytes, 7) matches Some(item) && string_of(item) == challenge@
        &&& told(bytes, 8) matches Some(item) && argument_at(item, 0) == (keys.epoch->0)@
    }
}

/// A unit that can let anybody in at all.
pub open spec fn can_let_in(keys: KeysModel, facts: Facts<'_>) -> bool {
    &&& keys.controller
    &&& keys.secret matches Some(secret) && secret.device_id.len() == 16
    &&& keys.epoch matches Some(epoch) && epoch@ != 0
    &&& encode_utf8(facts.model@).len() <= 64
}

/// What is told of one set of keys.
proof fn lemma_tells(
    m: SessionsModel,
    to: Addressed,
    secret: SecretModel,
    epoch: Epoch,
    challenge: [u8; 16],
    facts: Facts<'_>,
)
    requires
        can_let_in(m.keys, facts),
        m.keys.secret == Some(secret),
        m.keys.epoch == Some(epoch),
    ensures
        tells(discovery_said(m, to, secret, epoch, challenge, facts), m.keys, facts, challenge),
{
    let slots = m.keys.clients;
    let some = occupied_in(slots, slots.len()) > 0;
    lemma_some_occupied(slots, slots.len());
    law_a_discovery_reads_back(
        to.conn@,
        to.req_id.0,
        secret.device_id,
        facts.model@,
        some,
        facts.pairing_open,
        challenge@,
        epoch@,
    );
    assert(seq![0xf5u8][0] != seq![0xf4u8][0]);
}

/// The answer to a `Discover` on a row with a live challenge says the unit is
/// provisioned exactly when at least one client slot is occupied, and that
/// pairing is open exactly when the window is; and it gives the unit's number
/// and model, the live challenge and the epoch.
pub proof fn law_a_discover_is_told_how_the_unit_stands(
    m: SessionsModel,
    to: Addressed,
    now: Tick,
    facts: Facts<'_>,
    challenge: [u8; 16],
)
    requires
        m.sound(),
        can_let_in(m.keys, facts),
        m.row(to.conn) matches Some(row) && live_of(row.challenge, now) == Some(challenge),
    ensures
        m.discovers(to, now, facts) matches Next::Said(said) && tells(
            said,
            m.keys,
            facts,
            challenge,
        ),
{
    lemma_tells(m, to, m.keys.secret->0, m.keys.epoch->0, challenge, facts);
}

/// A `Discover` that had to ask for its challenge is told the same, with the
/// challenge that was drawn, which is the row's from now on.
pub proof fn law_a_discover_that_asked_is_told_the_same(
    m: SessionsModel,
    to: Addressed,
    drawn: [u8; 16],
    now: Tick,
    facts: Facts<'_>,
)
    requires
        m.sound(),
        can_let_in(m.keys, facts),
    ensures
        tells(m.discovered(to, Some(drawn), now, facts).1, m.keys, facts, drawn),
        m.discovered(to, Some(drawn), now, facts).0.keys == m.keys,
        m.row(to.conn) matches Some(row) ==> m.discovered(to, Some(drawn), now, facts).0.row(
            to.conn,
        ) == Some(
            RowModel { challenge: Challenge::Live { bytes: drawn, minted: now }, ..row },
        ),
{
    broadcast use {lemma_a_changed_row_is_found, lemma_a_row_carries_its_handle};

    let after = m.minted(to.conn, drawn, now);
    lemma_tells(after, to, m.keys.secret->0, m.keys.epoch->0, drawn, facts);
}

/// A unit that cannot let anybody in gives no challenge, and neither does one
/// whose random source does not answer: both say error 18.
pub proof fn law_no_challenge_without_keys_or_chance(
    m: SessionsModel,
    to: Addressed,
    now: Tick,
    facts: Facts<'_>,
)
    ensures
        m.keys.secret is None || m.keys.epoch is None || !m.keys.controller ==> {
            &&& m.discovers(to, now, facts) matches Next::Said(said) && said.image == error_image(
                18,
                to.conn@,
                to.req_id.0,
            )
            &&& forall|drawn: Option<[u8; 16]>|
                (#[trigger] m.discovered(to, drawn, now, facts)).1.image == error_image(
                    18,
                    to.conn@,
                    to.req_id.0,
                ) && m.discovered(to, drawn, now, facts).0 == m
        },
        m.discovered(to, None, now, facts).1.image == error_image(18, to.conn@, to.req_id.0),
        m.discovered(to, None, now, facts).0 == m,
{
}

} // verus!
