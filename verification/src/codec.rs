//! Wire codec for member credentials and the group role policy.
//!
//! Deterministic, self-describing layout: variable-size length prefixes
//! (one, two or four bytes, minimal encoding required), length-prefixed
//! byte fields, and nested length-prefixed lists; no implicit padding.
//! Decoding a truncated or malformed buffer surfaces a typed error and
//! never silently truncates or defaults.

use vstd::prelude::*;
use crate::credential::ArrayMap;
use crate::credential::FireflyMemberCredential;
use crate::credential::FireflyMemberCredentialView;
use crate::credential::UserRole;
use crate::error::CodecError;
use crate::permissions::UserPermissions;
use crate::policy::ChannelType;
use crate::policy::FireflyGroupContext;
use crate::policy::FireflyGroupContextView;
use crate::policy::FireflyGroupExtension;
use crate::policy::GroupChannel;
use crate::policy::GroupChannelView;
use crate::policy::GroupRole;
use crate::policy::GroupRoleView;
use crate::engine::AddMessageProposal;
use crate::engine::AddUserProposal;
use crate::engine::RemoveUserProposal;

verus! {

/// Largest value a variable-size length prefix can carry.
pub const VARINT_LIMIT: u32 = 0x4000_0000;

/// The bytes of a length prefix: one byte below 0x40, two below 0x4000,
/// else four; the top two bits of the first byte carry the width.
pub open spec fn spec_varint(n: int) -> Seq<u8> {
    if n < 0x40 {
        seq![n as u8]
    } else if n < 0x4000 {
        seq![(0x40 + n / 0x100) as u8, (n % 0x100) as u8]
    } else {
        seq![
            (0x80 + n / 0x100_0000) as u8,
            ((n / 0x1_0000) % 0x100) as u8,
            ((n / 0x100) % 0x100) as u8,
            (n % 0x100) as u8,
        ]
    }
}

/// Reads a length prefix from the front of `b`: the value and the bytes
/// consumed, or nothing on truncation, a reserved prefix, or a non-minimal
/// encoding.
pub open spec fn spec_decode_varint(b: Seq<u8>) -> Option<(int, int)> {
    if b.len() < 1 {
        None
    } else {
        let first = b[0] as int;
        if first < 0x40 {
            Some((first, 1))
        } else if first < 0x80 {
            if b.len() < 2 {
                None
            } else {
                let n = (first - 0x40) * 0x100 + b[1] as int;
                if n >= 0x40 {
                    Some((n, 2))
                } else {
                    None
                }
            }
        } else if first < 0xc0 {
            if b.len() < 4 {
                None
            } else {
                let n = (first - 0x80) * 0x100_0000 + (b[1] as int) * 0x1_0000 + (b[2] as int)
                    * 0x100 + (b[3] as int);
                if n >= 0x4000 {
                    Some((n, 4))
                } else {
                    None
                }
            }
        } else {
            None
        }
    }
}

/// A length prefix reads back as the value it was written from, and
/// consumes exactly its own bytes, whatever follows it.
pub proof fn lemma_varint_round_trip(n: int, rest: Seq<u8>)
    requires
        0 <= n < VARINT_LIMIT,
    ensures
        spec_decode_varint(spec_varint(n) + rest) == Some((n, spec_varint(n).len() as int)),
{
    let e = spec_varint(n);
    let b = e + rest;
    if n < 0x40 {
        assert(b[0] == n as u8);
    } else if n < 0x4000 {
        assert(0 <= n / 0x100 < 0x40) by (nonlinear_arith)
            requires 0x40 <= n < 0x4000,
        ;
        assert(b[0] == (0x40 + n / 0x100) as u8);
        assert(b[1] == (n % 0x100) as u8);
        let first = b[0] as int;
        assert(first == 0x40 + n / 0x100);
        assert((first - 0x40) * 0x100 + (n % 0x100) == n) by (nonlinear_arith)
            requires first == 0x40 + n / 0x100, 0 <= n,
        ;
    } else {
        assert(0 <= n / 0x100_0000 < 0x40) by (nonlinear_arith)
            requires 0x4000 <= n < 0x4000_0000,
        ;
        assert(b[0] == (0x80 + n / 0x100_0000) as u8);
        assert(b[1] == ((n / 0x1_0000) % 0x100) as u8);
        assert(b[2] == ((n / 0x100) % 0x100) as u8);
        assert(b[3] == (n % 0x100) as u8);
        let first = b[0] as int;
        assert(first == 0x80 + n / 0x100_0000);
        assert((n / 0x100_0000) * 0x100_0000 + ((n / 0x1_0000) % 0x100) * 0x1_0000 + ((n / 0x100)
            % 0x100) * 0x100 + (n % 0x100) == n) by (nonlinear_arith)
            requires 0 <= n < 0x4000_0000,
        ;
    }
}

/// Appends the length prefix for `n` to `out`; refuses values the prefix
/// cannot carry.
pub fn encode_varint_into(out: &mut Vec<u8>, n: usize) -> (ok: bool)
    ensures
        ok == (n < VARINT_LIMIT),
        ok ==> final(out)@ == old(out)@ + spec_varint(n as int),
        !ok ==> final(out)@ == old(out)@,
{
    if n < 0x40 {
        out.push(n as u8);
        assert(out@ =~= old(out)@ + spec_varint(n as int));
        true
    } else if n < 0x4000 {
        assert(n / 0x100 < 0x40) by (nonlinear_arith)
            requires n < 0x4000,
        ;
        out.push((0x40 + n / 0x100) as u8);
        out.push((n % 0x100) as u8);
        assert(out@ =~= old(out)@ + spec_varint(n as int));
        true
    } else if n < 0x4000_0000 {
        assert(n / 0x100_0000 < 0x40) by (nonlinear_arith)
            requires n < 0x4000_0000,
        ;
        out.push((0x80 + n / 0x100_0000) as u8);
        out.push(((n / 0x1_0000) % 0x100) as u8);
        out.push(((n / 0x100) % 0x100) as u8);
        out.push((n % 0x100) as u8);
        assert(out@ =~= old(out)@ + spec_varint(n as int));
        true
    } else {
        false
    }
}

/// Reads the length prefix at `pos`, looking no further than `end`;
/// returns the value and the position after it.
pub fn decode_varint(b: &Vec<u8>, pos: usize, end: usize) -> (r: Option<(usize, usize)>)
    requires
        pos <= end <= b@.len(),
    ensures
        match r {
            Some(p) => {
                &&& spec_decode_varint(b@.subrange(pos as int, end as int)) == Some(
                    (p.0 as int, p.1 - pos as int),
                )
                &&& pos < p.1 <= end
                &&& p.0 < VARINT_LIMIT
            },
            None => spec_decode_varint(b@.subrange(pos as int, end as int)) is None,
        },
{
    let ghost s = b@.subrange(pos as int, end as int);
    if pos >= end {
        return None;
    }
    let first = b[pos];
    assert(s[0] == first);
    if first < 0x40 {
        Some((first as usize, pos + 1))
    } else if first < 0x80 {
        if end - pos < 2 {
            None
        } else {
            assert(s[1] == b@[pos + 1]);
            let n: usize = (first as usize - 0x40) * 0x100 + b[pos + 1] as usize;
            if n >= 0x40 {
                Some((n, pos + 2))
            } else {
                None
            }
        }
    } else if first < 0xc0 {
        if end - pos < 4 {
            None
        } else {
            assert(s[1] == b@[pos + 1]);
            assert(s[2] == b@[pos + 2]);
            assert(s[3] == b@[pos + 3]);
            let n: usize = (first as usize - 0x80) * 0x100_0000 + (b[pos + 1] as usize) * 0x1_0000
                + (b[pos + 2] as usize) * 0x100 + (b[pos + 3] as usize);
            if n >= 0x4000 {
                Some((n, pos + 4))
            } else {
                None
            }
        }
    } else {
        None
    }
}

/// A byte field fits on the wire when its length prefix can carry it.
pub open spec fn bytes_encodable(b: Seq<u8>) -> bool {
    b.len() < VARINT_LIMIT
}

/// A length-prefixed byte field.
pub open spec fn spec_encode_bytes(b: Seq<u8>) -> Seq<u8> {
    spec_varint(b.len() as int) + b
}

/// Reads a length-prefixed byte field from the front of `b`.
pub open spec fn spec_decode_bytes(b: Seq<u8>) -> Option<(Seq<u8>, int)> {
    match spec_decode_varint(b) {
        Some(p) => {
            if p.1 + p.0 <= b.len() {
                Some((b.subrange(p.1, p.1 + p.0), p.1 + p.0))
            } else {
                None
            }
        },
        None => None,
    }
}

/// A byte field reads back unchanged and consumes exactly its own bytes,
/// whatever follows it.
pub proof fn lemma_bytes_round_trip(v: Seq<u8>, rest: Seq<u8>)
    requires
        bytes_encodable(v),
    ensures
        spec_decode_bytes(spec_encode_bytes(v) + rest) == Some(
            (v, spec_encode_bytes(v).len() as int),
        ),
{
    let e = spec_encode_bytes(v);
    let b = e + rest;
    let h = spec_varint(v.len() as int);
    assert(b =~= h + (v + rest));
    lemma_varint_round_trip(v.len() as int, v + rest);
    let c = h.len() as int;
    assert(spec_decode_varint(b) == Some((v.len() as int, c)));
    assert(b.subrange(c, c + v.len() as int) =~= v);
}

/// Appends the length-prefixed field `v` to `out`; refuses fields longer
/// than the prefix can carry.
pub fn encode_bytes_into(out: &mut Vec<u8>, v: &Vec<u8>) -> (ok: bool)
    ensures
        ok == bytes_encodable(v@),
        ok ==> final(out)@ == old(out)@ + spec_encode_bytes(v@),
        !ok ==> final(out)@ == old(out)@,
{
    if !encode_varint_into(out, v.len()) {
        return false;
    }
    let ghost mid = out@;
    let mut i: usize = 0;
    while i < v.len()
        invariant
            i <= v@.len(),
            out@ == mid + v@.take(i as int),
        decreases v@.len() - i,
    {
        out.push(v[i]);
        i = i + 1;
        proof {
            assert(out@ =~= mid + v@.take(i as int));
        }
    }
    proof {
        assert(v@.take(v@.len() as int) =~= v@);
        assert(out@ =~= old(out)@ + spec_encode_bytes(v@));
    }
    true
}

/// The bytes of `b` from `from` to `to`, as a fresh vector.
pub fn copy_range(b: &Vec<u8>, from: usize, to: usize) -> (r: Vec<u8>)
    requires
        from <= to <= b@.len(),
    ensures
        r@ == b@.subrange(from as int, to as int),
{
    let mut r: Vec<u8> = Vec::new();
    let mut i: usize = from;
    while i < to
        invariant
            from <= i <= to <= b@.len(),
            r@ == b@.subrange(from as int, i as int),
        decreases to - i,
    {
        r.push(b[i]);
        i = i + 1;
        proof {
            assert(r@ =~= b@.subrange(from as int, i as int));
        }
    }
    r
}

/// A decoded byte field and the position after it.
pub type ByteField = (Vec<u8>, usize);

/// Reads the length-prefixed byte field at `pos`, looking no further than
/// `end`; returns the field and the position after it.
pub fn decode_bytes(b: &Vec<u8>, pos: usize, end: usize) -> (r: Option<ByteField>)
    requires
        pos <= end <= b@.len(),
    ensures
        match r {
            Some(p) => {
                &&& spec_decode_bytes(b@.subrange(pos as int, end as int)) == Some(
                    (p.0.view(), p.1 - pos as int),
                )
                &&& pos < p.1 <= end
            },
            None => (spec_decode_bytes(b@.subrange(pos as int, end as int)) is None),
        },
{
    let ghost s = b@.subrange(pos as int, end as int);
    let decoded = decode_varint(b, pos, end);
    if decoded.is_none() {
        return None;
    }
    let (n, p2) = decoded.unwrap();
    if end - p2 < n {
        return None;
    }
    let v = copy_range(b, p2, p2 + n);
    proof {
        let c = p2 - pos as int;
        assert(s.subrange(c, c + n as int) =~= b@.subrange(p2 as int, (p2 + n) as int));
    }
    Some((v, p2 + n))
}
/// The byte on the wire for each channel kind.
pub open spec fn spec_channel_type_byte(t: ChannelType) -> u8 {
    match t {
        ChannelType::Media => 1,
        ChannelType::Text => 2,
    }
}

/// A role fits on the wire when its name does.
pub open spec fn role_encodable(r: GroupRoleView) -> bool {
    bytes_encodable(r.name)
}

/// A role on the wire: id, length-prefixed name, permission mask.
pub open spec fn spec_encode_role(r: GroupRoleView) -> Seq<u8> {
    seq![r.id] + spec_encode_bytes(r.name) + seq![r.permissions]
}

/// Reads a role from the front of `b`.
pub open spec fn spec_decode_role(b: Seq<u8>) -> Option<(GroupRoleView, int)> {
    if b.len() < 1 {
        None
    } else {
        match spec_decode_bytes(b.skip(1)) {
            Some(p) => {
                if 1 + p.1 + 1 <= b.len() {
                    Some(
                        (
                            GroupRoleView { id: b[0], name: p.0, permissions: b[1 + p.1] },
                            1 + p.1 + 1,
                        ),
                    )
                } else {
                    None
                }
            },
            None => None,
        }
    }
}

/// A channel fits on the wire when its name does.
pub open spec fn channel_encodable(c: GroupChannelView) -> bool {
    bytes_encodable(c.name)
}

/// A channel on the wire: id, length-prefixed name, kind byte.
pub open spec fn spec_encode_channel(c: GroupChannelView) -> Seq<u8> {
    seq![c.id] + spec_encode_bytes(c.name) + seq![spec_channel_type_byte(c.ty)]
}

/// Reads a channel from the front of `b`; a kind byte outside the two
/// defined kinds is malformed.
pub open spec fn spec_decode_channel(b: Seq<u8>) -> Option<(GroupChannelView, int)> {
    if b.len() < 1 {
        None
    } else {
        match spec_decode_bytes(b.skip(1)) {
            Some(p) => {
                if 1 + p.1 + 1 <= b.len() {
                    let tb = b[1 + p.1];
                    if tb == 1 {
                        Some(
                            (
                                GroupChannelView { id: b[0], name: p.0, ty: ChannelType::Media },
                                1 + p.1 + 1,
                            ),
                        )
                    } else if tb == 2 {
                        Some(
                            (
                                GroupChannelView { id: b[0], name: p.0, ty: ChannelType::Text },
                                1 + p.1 + 1,
                            ),
                        )
                    } else {
                        None
                    }
                } else {
                    None
                }
            },
            None => None,
        }
    }
}

/// A role reads back unchanged, whatever follows it.
pub proof fn lemma_role_round_trip(r: GroupRoleView, rest: Seq<u8>)
    requires
        role_encodable(r),
    ensures
        spec_decode_role(spec_encode_role(r) + rest) == Some((r, spec_encode_role(r).len() as int)),
{
    let e = spec_encode_role(r);
    let b = e + rest;
    let nb = spec_encode_bytes(r.name);
    assert(b[0] == r.id);
    assert(b.skip(1) =~= nb + (seq![r.permissions] + rest));
    lemma_bytes_round_trip(r.name, seq![r.permissions] + rest);
    let c = nb.len() as int;
    assert(b[1 + c] == r.permissions);
    assert(GroupRoleView { id: r.id, name: r.name, permissions: r.permissions } =~= r);
}

/// A channel reads back unchanged, whatever follows it.
pub proof fn lemma_channel_round_trip(c: GroupChannelView, rest: Seq<u8>)
    requires
        channel_encodable(c),
    ensures
        spec_decode_channel(spec_encode_channel(c) + rest) == Some(
            (c, spec_encode_channel(c).len() as int),
        ),
{
    let e = spec_encode_channel(c);
    let b = e + rest;
    let nb = spec_encode_bytes(c.name);
    assert(b[0] == c.id);
    assert(b.skip(1) =~= nb + (seq![spec_channel_type_byte(c.ty)] + rest));
    lemma_bytes_round_trip(c.name, seq![spec_channel_type_byte(c.ty)] + rest);
    let k = nb.len() as int;
    assert(b[1 + k] == spec_channel_type_byte(c.ty));
    assert(GroupChannelView { id: c.id, name: c.name, ty: c.ty } =~= c);
}

/// Appends `v` whole to `out`.
pub fn push_all(out: &mut Vec<u8>, v: &Vec<u8>)
    ensures
        final(out)@ == old(out)@ + v@,
{
    let ghost base = out@;
    let mut i: usize = 0;
    while i < v.len()
        invariant
            i <= v@.len(),
            out@ == base + v@.take(i as int),
        decreases v@.len() - i,
    {
        out.push(v[i]);
        i = i + 1;
        proof {
            assert(out@ =~= base + v@.take(i as int));
        }
    }
    proof {
        assert(base + v@.take(v@.len() as int) =~= base + v@);
    }
}

/// Appends the wire form of the role to `out`; refuses a role whose name
/// the length prefix cannot carry.
pub fn encode_role_into(out: &mut Vec<u8>, r: &GroupRole) -> (ok: bool)
    ensures
        ok == role_encodable(r@),
        ok ==> final(out)@ == old(out)@ + spec_encode_role(r@),
        !ok ==> final(out)@ == old(out)@,
{
    if r.name.len() >= VARINT_LIMIT as usize {
        return false;
    }
    out.push(r.id);
    let ok = encode_bytes_into(out, &r.name);
    out.push(r.permissions.0);
    proof {
        assert(out@ =~= old(out)@ + spec_encode_role(r@));
    }
    true
}

/// Appends the wire form of the channel to `out`; refuses a channel whose
/// name the length prefix cannot carry.
pub fn encode_channel_into(out: &mut Vec<u8>, c: &GroupChannel) -> (ok: bool)
    ensures
        ok == channel_encodable(c@),
        ok ==> final(out)@ == old(out)@ + spec_encode_channel(c@),
        !ok ==> final(out)@ == old(out)@,
{
    if c.name.len() >= VARINT_LIMIT as usize {
        return false;
    }
    out.push(c.id);
    let ok = encode_bytes_into(out, &c.name);
    let tb: u8 = match c.ty {
        ChannelType::Media => 1,
        ChannelType::Text => 2,
    };
    out.push(tb);
    proof {
        assert(out@ =~= old(out)@ + spec_encode_channel(c@));
    }
    true
}

/// Reads the role at `pos`, looking no further than `end`; returns the
/// role and the position after it.
pub fn decode_role(b: &Vec<u8>, pos: usize, end: usize) -> (r: Option<(GroupRole, usize)>)
    requires
        pos <= end <= b@.len(),
    ensures
        match r {
            Some(p) => {
                &&& spec_decode_role(b@.subrange(pos as int, end as int)) == Some(
                    (p.0.view(), p.1 - pos as int),
                )
                &&& pos < p.1 <= end
            },
            None => (spec_decode_role(b@.subrange(pos as int, end as int)) is None),
        },
{
    let ghost s = b@.subrange(pos as int, end as int);
    if pos >= end {
        return None;
    }
    let id = b[pos];
    proof {
        assert(s[0] == id);
        assert(s.skip(1) =~= b@.subrange(pos as int + 1, end as int));
    }
    let db = decode_bytes(b, pos + 1, end);
    if db.is_none() {
        return None;
    }
    let (name, p2) = db.unwrap();
    if p2 >= end {
        return None;
    }
    let perm = b[p2];
    proof {
        let c = p2 - (pos + 1) as int;
        assert(s[1 + c] == b@[p2 as int]);
    }
    Some((GroupRole { id, name, permissions: UserPermissions(perm) }, p2 + 1))
}

/// Reads the channel at `pos`, looking no further than `end`; returns the
/// channel and the position after it.
pub fn decode_channel(b: &Vec<u8>, pos: usize, end: usize) -> (r: Option<(GroupChannel, usize)>)
    requires
        pos <= end <= b@.len(),
    ensures
        match r {
            Some(p) => {
                &&& spec_decode_channel(b@.subrange(pos as int, end as int)) == Some(
                    (p.0.view(), p.1 - pos as int),
                )
                &&& pos < p.1 <= end
            },
            None => (spec_decode_channel(b@.subrange(pos as int, end as int)) is None),
        },
{
    let ghost s = b@.subrange(pos as int, end as int);
    if pos >= end {
        return None;
    }
    let id = b[pos];
    proof {
        assert(s[0] == id);
        assert(s.skip(1) =~= b@.subrange(pos as int + 1, end as int));
    }
    let db = decode_bytes(b, pos + 1, end);
    if db.is_none() {
        return None;
    }
    let (name, p2) = db.unwrap();
    if p2 >= end {
        return None;
    }
    let tb = b[p2];
    proof {
        let c = p2 - (pos + 1) as int;
        assert(s[1 + c] == b@[p2 as int]);
    }
    if tb == 1 {
        Some((GroupChannel { id, name, ty: ChannelType::Media }, p2 + 1))
    } else if tb == 2 {
        Some((GroupChannel { id, name, ty: ChannelType::Text }, p2 + 1))
    } else {
        None
    }
}
/// Every role of the sequence fits on the wire.
pub open spec fn role_seq_encodable(rs: Seq<GroupRoleView>) -> bool {
    forall|i: int| 0 <= i < rs.len() ==> role_encodable(#[trigger] rs[i])
}

/// Every channel of the sequence fits on the wire.
pub open spec fn channel_seq_encodable(cs: Seq<GroupChannelView>) -> bool {
    forall|i: int| 0 <= i < cs.len() ==> channel_encodable(#[trigger] cs[i])
}

/// The concatenated wire forms of the roles, in order.
pub open spec fn spec_encode_role_seq(rs: Seq<GroupRoleView>) -> Seq<u8>
    decreases rs.len(),
{
    if rs.len() == 0 {
        Seq::empty()
    } else {
        spec_encode_role(rs[0]) + spec_encode_role_seq(rs.skip(1))
    }
}

/// The concatenated wire forms of the channels, in order.
pub open spec fn spec_encode_channel_seq(cs: Seq<GroupChannelView>) -> Seq<u8>
    decreases cs.len(),
{
    if cs.len() == 0 {
        Seq::empty()
    } else {
        spec_encode_channel(cs[0]) + spec_encode_channel_seq(cs.skip(1))
    }
}

/// Reads roles from all of `b`, which must be consumed exactly.
pub open spec fn spec_decode_role_seq(b: Seq<u8>) -> Option<Seq<GroupRoleView>>
    decreases b.len(),
{
    if b.len() == 0 {
        Some(Seq::empty())
    } else {
        match spec_decode_role(b) {
            Some(p) => {
                if 1 <= p.1 <= b.len() {
                    match spec_decode_role_seq(b.skip(p.1)) {
                        Some(rest) => Some(seq![p.0] + rest),
                        None => None,
                    }
                } else {
                    None
                }
            },
            None => None,
        }
    }
}

/// Reads channels from all of `b`, which must be consumed exactly.
pub open spec fn spec_decode_channel_seq(b: Seq<u8>) -> Option<Seq<GroupChannelView>>
    decreases b.len(),
{
    if b.len() == 0 {
        Some(Seq::empty())
    } else {
        match spec_decode_channel(b) {
            Some(p) => {
                if 1 <= p.1 <= b.len() {
                    match spec_decode_channel_seq(b.skip(p.1)) {
                        Some(rest) => Some(seq![p.0] + rest),
                        None => None,
                    }
                } else {
                    None
                }
            },
            None => None,
        }
    }
}

/// Appending one role to a sequence appends its wire form.
pub proof fn lemma_role_seq_snoc(rs: Seq<GroupRoleView>, r: GroupRoleView)
    ensures
        spec_encode_role_seq(rs.push(r)) == spec_encode_role_seq(rs) + spec_encode_role(r),
    decreases rs.len(),
{
    reveal_with_fuel(spec_encode_role_seq, 3);
    if rs.len() == 0 {
        assert(rs.push(r)[0] == r);
        assert(rs.push(r).skip(1) =~= Seq::<GroupRoleView>::empty());
        assert(spec_encode_role_seq(rs.push(r)) =~= spec_encode_role_seq(rs) + spec_encode_role(r));
    } else {
        assert(rs.push(r)[0] == rs[0]);
        assert(rs.push(r).skip(1) =~= rs.skip(1).push(r));
        lemma_role_seq_snoc(rs.skip(1), r);
        assert(spec_encode_role_seq(rs.push(r)) =~= spec_encode_role_seq(rs) + spec_encode_role(r));
    }
}

/// Appending one channel to a sequence appends its wire form.
pub proof fn lemma_channel_seq_snoc(cs: Seq<GroupChannelView>, c: GroupChannelView)
    ensures
        spec_encode_channel_seq(cs.push(c)) == spec_encode_channel_seq(cs) + spec_encode_channel(c),
    decreases cs.len(),
{
    reveal_with_fuel(spec_encode_channel_seq, 3);
    if cs.len() == 0 {
        assert(cs.push(c)[0] == c);
        assert(cs.push(c).skip(1) =~= Seq::<GroupChannelView>::empty());
        assert(spec_encode_channel_seq(cs.push(c)) =~= spec_encode_channel_seq(cs)
            + spec_encode_channel(c));
    } else {
        assert(cs.push(c)[0] == cs[0]);
        assert(cs.push(c).skip(1) =~= cs.skip(1).push(c));
        lemma_channel_seq_snoc(cs.skip(1), c);
        assert(spec_encode_channel_seq(cs.push(c)) =~= spec_encode_channel_seq(cs)
            + spec_encode_channel(c));
    }
}

/// A sequence of roles reads back unchanged from its own wire form.
#[verifier::rlimit(50)]
#[verifier::spinoff_prover]
pub proof fn lemma_role_seq_round_trip(rs: Seq<GroupRoleView>)
    requires
        role_seq_encodable(rs),
    ensures
        spec_decode_role_seq(spec_encode_role_seq(rs)) == Some(rs),
    decreases rs.len(),
{
    if rs.len() == 0 {
        assert(Seq::<GroupRoleView>::empty() =~= rs);
    } else {
        let e0 = spec_encode_role(rs[0]);
        let tail = spec_encode_role_seq(rs.skip(1));
        lemma_role_round_trip(rs[0], tail);
        let b = spec_encode_role_seq(rs);
        assert(b == e0 + tail);
        assert(b.skip(e0.len() as int) =~= tail);
        assert forall|i: int| 0 <= i < rs.skip(1).len() implies role_encodable(
            #[trigger] rs.skip(1)[i],
        ) by {
            assert(rs.skip(1)[i] == rs[i + 1]);
        }
        lemma_role_seq_round_trip(rs.skip(1));
        assert(seq![rs[0]] + rs.skip(1) =~= rs);
    }
}

/// A sequence of channels reads back unchanged from its own wire form.
#[verifier::rlimit(50)]
#[verifier::spinoff_prover]
pub proof fn lemma_channel_seq_round_trip(cs: Seq<GroupChannelView>)
    requires
        channel_seq_encodable(cs),
    ensures
        spec_decode_channel_seq(spec_encode_channel_seq(cs)) == Some(cs),
    decreases cs.len(),
{
    if cs.len() == 0 {
        assert(Seq::<GroupChannelView>::empty() =~= cs);
    } else {
        let e0 = spec_encode_channel(cs[0]);
        let tail = spec_encode_channel_seq(cs.skip(1));
        lemma_channel_round_trip(cs[0], tail);
        let b = spec_encode_channel_seq(cs);
        assert(b == e0 + tail);
        assert(b.skip(e0.len() as int) =~= tail);
        assert forall|i: int| 0 <= i < cs.skip(1).len() implies channel_encodable(
            #[trigger] cs.skip(1)[i],
        ) by {
            assert(cs.skip(1)[i] == cs[i + 1]);
        }
        lemma_channel_seq_round_trip(cs.skip(1));
        assert(seq![cs[0]] + cs.skip(1) =~= cs);
    }
}
/// A role list fits on the wire when each role does and the concatenation
/// fits its length prefix.
pub open spec fn roles_encodable(rs: Seq<GroupRoleView>) -> bool {
    role_seq_encodable(rs) && spec_encode_role_seq(rs).len() < VARINT_LIMIT
}

/// A channel list fits on the wire when each channel does and the
/// concatenation fits its length prefix.
pub open spec fn channels_encodable(cs: Seq<GroupChannelView>) -> bool {
    channel_seq_encodable(cs) && spec_encode_channel_seq(cs).len() < VARINT_LIMIT
}

/// A role list on the wire: byte-length prefix, then the roles.
pub open spec fn spec_encode_roles(rs: Seq<GroupRoleView>) -> Seq<u8> {
    spec_varint(spec_encode_role_seq(rs).len() as int) + spec_encode_role_seq(rs)
}

/// A channel list on the wire: byte-length prefix, then the channels.
pub open spec fn spec_encode_channels(cs: Seq<GroupChannelView>) -> Seq<u8> {
    spec_varint(spec_encode_channel_seq(cs).len() as int) + spec_encode_channel_seq(cs)
}

/// Reads a length-prefixed role list from the front of `b`.
pub open spec fn spec_decode_roles(b: Seq<u8>) -> Option<(Seq<GroupRoleView>, int)> {
    match spec_decode_varint(b) {
        Some(p) => {
            if p.1 + p.0 <= b.len() {
                match spec_decode_role_seq(b.subrange(p.1, p.1 + p.0)) {
                    Some(rs) => Some((rs, p.1 + p.0)),
                    None => None,
                }
            } else {
                None
            }
        },
        None => None,
    }
}

/// Reads a length-prefixed channel list from the front of `b`.
pub open spec fn spec_decode_channels(b: Seq<u8>) -> Option<(Seq<GroupChannelView>, int)> {
    match spec_decode_varint(b) {
        Some(p) => {
            if p.1 + p.0 <= b.len() {
                match spec_decode_channel_seq(b.subrange(p.1, p.1 + p.0)) {
                    Some(cs) => Some((cs, p.1 + p.0)),
                    None => None,
                }
            } else {
                None
            }
        },
        None => None,
    }
}

/// A role list reads back unchanged and consumes exactly its own bytes,
/// whatever follows it.
pub proof fn lemma_roles_round_trip(rs: Seq<GroupRoleView>, rest: Seq<u8>)
    requires
        roles_encodable(rs),
    ensures
        spec_decode_roles(spec_encode_roles(rs) + rest) == Some(
            (rs, spec_encode_roles(rs).len() as int),
        ),
{
    let items = spec_encode_role_seq(rs);
    let h = spec_varint(items.len() as int);
    let b = spec_encode_roles(rs) + rest;
    assert(b =~= h + (items + rest));
    lemma_varint_round_trip(items.len() as int, items + rest);
    let c = h.len() as int;
    assert(b.subrange(c, c + items.len() as int) =~= items);
    lemma_role_seq_round_trip(rs);
}

/// A channel list reads back unchanged and consumes exactly its own bytes,
/// whatever follows it.
pub proof fn lemma_channels_round_trip(cs: Seq<GroupChannelView>, rest: Seq<u8>)
    requires
        channels_encodable(cs),
    ensures
        spec_decode_channels(spec_encode_channels(cs) + rest) == Some(
            (cs, spec_encode_channels(cs).len() as int),
        ),
{
    let items = spec_encode_channel_seq(cs);
    let h = spec_varint(items.len() as int);
    let b = spec_encode_channels(cs) + rest;
    assert(b =~= h + (items + rest));
    lemma_varint_round_trip(items.len() as int, items + rest);
    let c = h.len() as int;
    assert(b.subrange(c, c + items.len() as int) =~= items);
    lemma_channel_seq_round_trip(cs);
}

/// Appends the wire form of the role list to `out`; refuses a list the
/// wire cannot carry.
pub fn encode_roles_into(out: &mut Vec<u8>, roles: &Vec<GroupRole>) -> (ok: bool)
    ensures
        ok == roles_encodable(roles@.map_values(|x: GroupRole| x@)),
        ok ==> final(out)@ == old(out)@ + spec_encode_roles(roles@.map_values(|x: GroupRole| x@)),
        !ok ==> final(out)@ == old(out)@,
{
    let ghost rsv = roles@.map_values(|x: GroupRole| x@);
    let mut tmp: Vec<u8> = Vec::new();
    let mut i: usize = 0;
    while i < roles.len()
        invariant
            i <= roles@.len(),
            rsv == roles@.map_values(|x: GroupRole| x@),
            rsv.len() == roles@.len(),
            tmp@ == spec_encode_role_seq(rsv.take(i as int)),
            role_seq_encodable(rsv.take(i as int)),
        decreases roles@.len() - i,
    {
        proof {
            assert(rsv[i as int] == roles@[i as int]@);
        }
        let ok = encode_role_into(&mut tmp, &roles[i]);
        if !ok {
            proof {
                assert(!role_encodable(rsv[i as int]));
            }
            return false;
        }
        proof {
            lemma_role_seq_snoc(rsv.take(i as int), rsv[i as int]);
            assert(rsv.take(i as int).push(rsv[i as int]) =~= rsv.take(i as int + 1));
            assert forall|j: int| 0 <= j < i as int + 1 implies role_encodable(
                #[trigger] rsv.take(i as int + 1)[j],
            ) by {
                if j < i as int {
                    assert(rsv.take(i as int)[j] == rsv.take(i as int + 1)[j]);
                }
            }
        }
        i = i + 1;
    }
    proof {
        assert(rsv.take(rsv.len() as int) =~= rsv);
    }
    if !encode_varint_into(out, tmp.len()) {
        return false;
    }
    push_all(out, &tmp);
    proof {
        assert(out@ =~= old(out)@ + spec_encode_roles(rsv));
    }
    true
}

/// Appends the wire form of the channel list to `out`; refuses a list the
/// wire cannot carry.
pub fn encode_channels_into(out: &mut Vec<u8>, channels: &Vec<GroupChannel>) -> (ok: bool)
    ensures
        ok == channels_encodable(channels@.map_values(|x: GroupChannel| x@)),
        ok ==> final(out)@ == old(out)@ + spec_encode_channels(
            channels@.map_values(|x: GroupChannel| x@),
        ),
        !ok ==> final(out)@ == old(out)@,
{
    let ghost csv = channels@.map_values(|x: GroupChannel| x@);
    let mut tmp: Vec<u8> = Vec::new();
    let mut i: usize = 0;
    while i < channels.len()
        invariant
            i <= channels@.len(),
            csv == channels@.map_values(|x: GroupChannel| x@),
            csv.len() == channels@.len(),
            tmp@ == spec_encode_channel_seq(csv.take(i as int)),
            channel_seq_encodable(csv.take(i as int)),
        decreases channels@.len() - i,
    {
        proof {
            assert(csv[i as int] == channels@[i as int]@);
        }
        let ok = encode_channel_into(&mut tmp, &channels[i]);
        if !ok {
            proof {
                assert(!channel_encodable(csv[i as int]));
            }
            return false;
        }
        proof {
            lemma_channel_seq_snoc(csv.take(i as int), csv[i as int]);
            assert(csv.take(i as int).push(csv[i as int]) =~= csv.take(i as int + 1));
            assert forall|j: int| 0 <= j < i as int + 1 implies channel_encodable(
                #[trigger] csv.take(i as int + 1)[j],
            ) by {
                if j < i as int {
                    assert(csv.take(i as int)[j] == csv.take(i as int + 1)[j]);
                }
            }
        }
        i = i + 1;
    }
    proof {
        assert(csv.take(csv.len() as int) =~= csv);
    }
    if !encode_varint_into(out, tmp.len()) {
        return false;
    }
    push_all(out, &tmp);
    proof {
        assert(out@ =~= old(out)@ + spec_encode_channels(csv));
    }
    true
}
/// Reads roles from `b` between `pos` and `end`, which must be consumed
/// exactly.
pub fn decode_role_list(b: &Vec<u8>, pos: usize, end: usize) -> (r: Option<Vec<GroupRole>>)
    requires
        pos <= end <= b@.len(),
    ensures
        match r {
            Some(v) => spec_decode_role_seq(b@.subrange(pos as int, end as int)) == Some(
                v@.map_values(|x: GroupRole| x@),
            ),
            None => (spec_decode_role_seq(b@.subrange(pos as int, end as int)) is None),
        },
{
    let ghost s0 = b@.subrange(pos as int, end as int);
    let mut acc: Vec<GroupRole> = Vec::new();
    let mut cur: usize = pos;
    while cur < end
        invariant
            pos <= cur <= end <= b@.len(),
            s0 == b@.subrange(pos as int, end as int),
            (match spec_decode_role_seq(b@.subrange(cur as int, end as int)) {
                Some(rest) => spec_decode_role_seq(s0) == Some(
                    acc@.map_values(|x: GroupRole| x@) + rest,
                ),
                None => spec_decode_role_seq(s0) is None,
            }),
        decreases end - cur,
    {
        let ghost scur = b@.subrange(cur as int, end as int);
        let ghost accv = acc@.map_values(|x: GroupRole| x@);
        let d = decode_role(b, cur, end);
        if d.is_none() {
            return None;
        }
        let (role, nxt) = d.unwrap();
        proof {
            let c = nxt - cur as int;
            assert(scur.skip(c) =~= b@.subrange(nxt as int, end as int));
            match spec_decode_role_seq(b@.subrange(nxt as int, end as int)) {
                Some(rest2) => {
                    assert(spec_decode_role_seq(scur) == Some(seq![role@] + rest2));
                    assert(accv + (seq![role@] + rest2) =~= accv.push(role@) + rest2);
                },
                None => {
                    assert(spec_decode_role_seq(scur) is None);
                },
            }
        }
        acc.push(role);
        cur = nxt;
        proof {
            assert(acc@.map_values(|x: GroupRole| x@) =~= accv.push(role@));
        }
    }
    proof {
        assert(b@.subrange(cur as int, end as int) =~= Seq::<u8>::empty());
        assert(spec_decode_role_seq(Seq::<u8>::empty()) == Some(Seq::<GroupRoleView>::empty()));
        assert(acc@.map_values(|x: GroupRole| x@) + Seq::<GroupRoleView>::empty() =~= acc@.map_values(
            |x: GroupRole| x@,
        ));
    }
    Some(acc)
}

/// Reads channels from `b` between `pos` and `end`, which must be consumed
/// exactly.
pub fn decode_channel_list(b: &Vec<u8>, pos: usize, end: usize) -> (r: Option<Vec<GroupChannel>>)
    requires
        pos <= end <= b@.len(),
    ensures
        match r {
            Some(v) => spec_decode_channel_seq(b@.subrange(pos as int, end as int)) == Some(
                v@.map_values(|x: GroupChannel| x@),
            ),
            None => (spec_decode_channel_seq(b@.subrange(pos as int, end as int)) is None),
        },
{
    let ghost s0 = b@.subrange(pos as int, end as int);
    let mut acc: Vec<GroupChannel> = Vec::new();
    let mut cur: usize = pos;
    while cur < end
        invariant
            pos <= cur <= end <= b@.len(),
            s0 == b@.subrange(pos as int, end as int),
            (match spec_decode_channel_seq(b@.subrange(cur as int, end as int)) {
                Some(rest) => spec_decode_channel_seq(s0) == Some(
                    acc@.map_values(|x: GroupChannel| x@) + rest,
                ),
                None => spec_decode_channel_seq(s0) is None,
            }),
        decreases end - cur,
    {
        let ghost scur = b@.subrange(cur as int, end as int);
        let ghost accv = acc@.map_values(|x: GroupChannel| x@);
        let d = decode_channel(b, cur, end);
        if d.is_none() {
            return None;
        }
        let (chan, nxt) = d.unwrap();
        proof {
            let c = nxt - cur as int;
            assert(scur.skip(c) =~= b@.subrange(nxt as int, end as int));
            match spec_decode_channel_seq(b@.subrange(nxt as int, end as int)) {
                Some(rest2) => {
                    assert(spec_decode_channel_seq(scur) == Some(seq![chan@] + rest2));
                    assert(accv + (seq![chan@] + rest2) =~= accv.push(chan@) + rest2);
                },
                None => {
                    assert(spec_decode_channel_seq(scur) is None);
                },
            }
        }
        acc.push(chan);
        cur = nxt;
        proof {
            assert(acc@.map_values(|x: GroupChannel| x@) =~= accv.push(chan@));
        }
    }
    proof {
        assert(b@.subrange(cur as int, end as int) =~= Seq::<u8>::empty());
        assert(spec_decode_channel_seq(Seq::<u8>::empty()) == Some(
            Seq::<GroupChannelView>::empty(),
        ));
        assert(acc@.map_values(|x: GroupChannel| x@) + Seq::<GroupChannelView>::empty()
            =~= acc@.map_values(|x: GroupChannel| x@));
    }
    Some(acc)
}

/// Reads the length-prefixed role list at `pos`, looking no further than
/// `end`; returns the roles and the position after them.
pub fn decode_roles(b: &Vec<u8>, pos: usize, end: usize) -> (r: Option<(Vec<GroupRole>, usize)>)
    requires
        pos <= end <= b@.len(),
    ensures
        match r {
            Some(p) => {
                &&& spec_decode_roles(b@.subrange(pos as int, end as int)) == Some(
                    (p.0.view().map_values(|x: GroupRole| x@), p.1 - pos as int),
                )
                &&& pos < p.1 <= end
            },
            None => (spec_decode_roles(b@.subrange(pos as int, end as int)) is None),
        },
{
    let ghost s = b@.subrange(pos as int, end as int);
    let decoded = decode_varint(b, pos, end);
    if decoded.is_none() {
        return None;
    }
    let (n, p2) = decoded.unwrap();
    if end - p2 < n {
        return None;
    }
    proof {
        let c = p2 - pos as int;
        assert(s.subrange(c, c + n as int) =~= b@.subrange(p2 as int, (p2 + n) as int));
    }
    let items = decode_role_list(b, p2, p2 + n);
    if items.is_none() {
        return None;
    }
    Some((items.unwrap(), p2 + n))
}

/// Reads the length-prefixed channel list at `pos`, looking no further
/// than `end`; returns the channels and the position after them.
pub fn decode_channels(b: &Vec<u8>, pos: usize, end: usize) -> (r: Option<
    (Vec<GroupChannel>, usize),
>)
    requires
        pos <= end <= b@.len(),
    ensures
        match r {
            Some(p) => {
                &&& spec_decode_channels(b@.subrange(pos as int, end as int)) == Some(
                    (p.0.view().map_values(|x: GroupChannel| x@), p.1 - pos as int),
                )
                &&& pos < p.1 <= end
            },
            None => (spec_decode_channels(b@.subrange(pos as int, end as int)) is None),
        },
{
    let ghost s = b@.subrange(pos as int, end as int);
    let decoded = decode_varint(b, pos, end);
    if decoded.is_none() {
        return None;
    }
    let (n, p2) = decoded.unwrap();
    if end - p2 < n {
        return None;
    }
    proof {
        let c = p2 - pos as int;
        assert(s.subrange(c, c + n as int) =~= b@.subrange(p2 as int, (p2 + n) as int));
    }
    let items = decode_channel_list(b, p2, p2 + n);
    if items.is_none() {
        return None;
    }
    Some((items.unwrap(), p2 + n))
}
/// A policy table fits on the wire when both of its lists do.
pub open spec fn context_encodable(cx: FireflyGroupContextView) -> bool {
    roles_encodable(cx.roles) && channels_encodable(cx.channels)
}

/// A policy table on the wire: the role list, then the channel list.
pub open spec fn spec_encode_context(cx: FireflyGroupContextView) -> Seq<u8> {
    spec_encode_roles(cx.roles) + spec_encode_channels(cx.channels)
}

/// Reads a policy table from the front of `b`.
pub open spec fn spec_decode_context(b: Seq<u8>) -> Option<(FireflyGroupContextView, int)> {
    match spec_decode_roles(b) {
        Some(p1) => {
            match spec_decode_channels(b.skip(p1.1)) {
                Some(p2) => Some(
                    (FireflyGroupContextView { roles: p1.0, channels: p2.0 }, p1.1 + p2.1),
                ),
                None => None,
            }
        },
        None => None,
    }
}

/// A policy table reads back unchanged and consumes exactly its own
/// bytes, whatever follows it.
pub proof fn lemma_context_round_trip(cx: FireflyGroupContextView, rest: Seq<u8>)
    requires
        context_encodable(cx),
    ensures
        spec_decode_context(spec_encode_context(cx) + rest) == Some(
            (cx, spec_encode_context(cx).len() as int),
        ),
{
    let er = spec_encode_roles(cx.roles);
    let ec = spec_encode_channels(cx.channels);
    let b = spec_encode_context(cx) + rest;
    assert(b =~= er + (ec + rest));
    lemma_roles_round_trip(cx.roles, ec + rest);
    assert(b.skip(er.len() as int) =~= ec + rest);
    lemma_channels_round_trip(cx.channels, rest);
    assert(FireflyGroupContextView { roles: cx.roles, channels: cx.channels } =~= cx);
}

/// A member credential fits on the wire when each of its four fields does.
pub open spec fn credential_encodable(v: FireflyMemberCredentialView) -> bool {
    &&& bytes_encodable(v.signature)
    &&& bytes_encodable(v.username)
    &&& bytes_encodable(v.user_public_key)
    &&& bytes_encodable(v.channels_and_roles)
}

/// A member credential on the wire: four length-prefixed fields in order —
/// signature, username, public key, channel role table.
pub open spec fn spec_encode_credential(v: FireflyMemberCredentialView) -> Seq<u8> {
    spec_encode_bytes(v.signature) + spec_encode_bytes(v.username) + spec_encode_bytes(
        v.user_public_key,
    ) + spec_encode_bytes(v.channels_and_roles)
}

/// Reads a member credential from the front of `b`.
pub open spec fn spec_decode_credential(b: Seq<u8>) -> Option<(FireflyMemberCredentialView, int)> {
    match spec_decode_bytes(b) {
        Some(p1) => {
            match spec_decode_bytes(b.skip(p1.1)) {
                Some(p2) => {
                    match spec_decode_bytes(b.skip(p1.1 + p2.1)) {
                        Some(p3) => {
                            match spec_decode_bytes(b.skip(p1.1 + p2.1 + p3.1)) {
                                Some(p4) => Some(
                                    (
                                        FireflyMemberCredentialView {
                                            signature: p1.0,
                                            username: p2.0,
                                            user_public_key: p3.0,
                                            channels_and_roles: p4.0,
                                        },
                                        p1.1 + p2.1 + p3.1 + p4.1,
                                    ),
                                ),
                                None => None,
                            }
                        },
                        None => None,
                    }
                },
                None => None,
            }
        },
        None => None,
    }
}

/// A member credential reads back unchanged and consumes exactly its own
/// bytes, whatever follows it.
#[verifier::rlimit(100)]
#[verifier::spinoff_prover]
pub proof fn lemma_credential_round_trip(v: FireflyMemberCredentialView, rest: Seq<u8>)
    requires
        credential_encodable(v),
    ensures
        spec_decode_credential(spec_encode_credential(v) + rest) == Some(
            (v, spec_encode_credential(v).len() as int),
        ),
{
    let e1 = spec_encode_bytes(v.signature);
    let e2 = spec_encode_bytes(v.username);
    let e3 = spec_encode_bytes(v.user_public_key);
    let e4 = spec_encode_bytes(v.channels_and_roles);
    let b = spec_encode_credential(v) + rest;
    assert(b =~= e1 + (e2 + (e3 + (e4 + rest))));
    lemma_bytes_round_trip(v.signature, e2 + (e3 + (e4 + rest)));
    let c1 = e1.len() as int;
    assert(b.skip(c1) =~= e2 + (e3 + (e4 + rest)));
    lemma_bytes_round_trip(v.username, e3 + (e4 + rest));
    let c2 = e2.len() as int;
    assert(b.skip(c1 + c2) =~= e3 + (e4 + rest));
    lemma_bytes_round_trip(v.user_public_key, e4 + rest);
    let c3 = e3.len() as int;
    assert(b.skip(c1 + c2 + c3) =~= e4 + rest);
    lemma_bytes_round_trip(v.channels_and_roles, rest);
    assert(FireflyMemberCredentialView {
        signature: v.signature,
        username: v.username,
        user_public_key: v.user_public_key,
        channels_and_roles: v.channels_and_roles,
    } =~= v);
}

/// Round trip: any member credential that fits on the wire decodes from
/// its own encoding back to itself, consuming every byte.
pub proof fn lemma_member_credential_round_trip(v: FireflyMemberCredentialView)
    requires
        credential_encodable(v),
    ensures
        spec_decode_credential(spec_encode_credential(v)) == Some(
            (v, spec_encode_credential(v).len() as int),
        ),
{
    lemma_credential_round_trip(v, Seq::empty());
    assert(spec_encode_credential(v) + Seq::<u8>::empty() =~= spec_encode_credential(v));
}

/// Round trip: any policy table that fits on the wire decodes from its own
/// encoding back to itself, consuming every byte.
pub proof fn lemma_group_context_round_trip(cx: FireflyGroupContextView)
    requires
        context_encodable(cx),
    ensures
        spec_decode_context(spec_encode_context(cx)) == Some(
            (cx, spec_encode_context(cx).len() as int),
        ),
{
    lemma_context_round_trip(cx, Seq::empty());
    assert(spec_encode_context(cx) + Seq::<u8>::empty() =~= spec_encode_context(cx));
}

/// The channel role table as raw bytes.
pub fn roles_to_bytes(m: &ArrayMap) -> (r: Vec<u8>)
    ensures
        r@ == m@,
{
    let mut r: Vec<u8> = Vec::new();
    let mut i: usize = 0;
    while i < m.arr.len()
        invariant
            i <= m.arr@.len(),
            r@ == m@.take(i as int),
        decreases m.arr@.len() - i,
    {
        r.push(m.arr[i].0);
        i = i + 1;
        proof {
            assert(m@[i - 1] == m.arr@[i - 1].0);
            assert(r@ =~= m@.take(i as int));
        }
    }
    proof {
        assert(m@.take(m@.len() as int) =~= m@);
    }
    r
}

/// A channel role table from raw bytes.
pub fn roles_from_bytes(v: Vec<u8>) -> (r: ArrayMap)
    ensures
        r@ == v@,
{
    let mut arr: Vec<UserRole> = Vec::new();
    let mut i: usize = 0;
    while i < v.len()
        invariant
            i <= v@.len(),
            arr@.len() == i,
            forall|j: int| 0 <= j < i ==> arr@[j].0 == v@[j],
        decreases v@.len() - i,
    {
        arr.push(UserRole(v[i]));
        i = i + 1;
    }
    proof {
        let ms = arr@.map_values(|x: UserRole| x.0);
        assert forall|j: int| 0 <= j < v@.len() implies #[trigger] ms[j] == v@[j] by {
            assert(arr@[j].0 == v@[j]);
        }
        assert(ms =~= v@);
    }
    ArrayMap { arr }
}

/// Encodes a member credential; fails exactly when some field is longer
/// than its length prefix can carry.
pub fn encode_member_credential(c: &FireflyMemberCredential) -> (r: Result<Vec<u8>, CodecError>)
    ensures
        match r {
            Ok(v) => credential_encodable(c@) && v@ == spec_encode_credential(c@),
            Err(_) => !credential_encodable(c@),
        },
{
    let mut out: Vec<u8> = Vec::new();
    if !encode_bytes_into(&mut out, &c.signature) {
        return Err(CodecError);
    }
    if !encode_bytes_into(&mut out, &c.username) {
        return Err(CodecError);
    }
    if !encode_bytes_into(&mut out, &c.user_public_key) {
        return Err(CodecError);
    }
    let rb = roles_to_bytes(&c.channels_and_roles);
    if !encode_bytes_into(&mut out, &rb) {
        return Err(CodecError);
    }
    proof {
        assert(out@ =~= spec_encode_credential(c@));
    }
    Ok(out)
}

/// Decodes a member credential from the whole of `b`; fails exactly when
/// the bytes are malformed or not fully consumed.
pub fn decode_member_credential(b: &Vec<u8>) -> (r: Result<FireflyMemberCredential, CodecError>)
    ensures
        match r {
            Ok(c) => spec_decode_credential(b@) == Some((c@, b@.len() as int)),
            Err(_) => (spec_decode_credential(b@) matches Some(p) ==> p.1 != b@.len()),
        },
{
    let end = b.len();
    proof {
        assert(b@.subrange(0, end as int) =~= b@);
    }
    let d1 = decode_bytes(b, 0, end);
    if d1.is_none() {
        return Err(CodecError);
    }
    let (signature, p1) = d1.unwrap();
    proof {
        assert(b@.subrange(p1 as int, end as int) =~= b@.skip(p1 as int));
    }
    let d2 = decode_bytes(b, p1, end);
    if d2.is_none() {
        return Err(CodecError);
    }
    let (username, p2) = d2.unwrap();
    proof {
        assert(b@.subrange(p2 as int, end as int) =~= b@.skip(p2 as int));
    }
    let d3 = decode_bytes(b, p2, end);
    if d3.is_none() {
        return Err(CodecError);
    }
    let (user_public_key, p3) = d3.unwrap();
    proof {
        assert(b@.subrange(p3 as int, end as int) =~= b@.skip(p3 as int));
    }
    let d4 = decode_bytes(b, p3, end);
    if d4.is_none() {
        return Err(CodecError);
    }
    let (role_bytes, p4) = d4.unwrap();
    if p4 != end {
        return Err(CodecError);
    }
    let channels_and_roles = roles_from_bytes(role_bytes);
    Ok(
        FireflyMemberCredential {
            signature,
            username,
            user_public_key,
            channels_and_roles,
        },
    )
}

/// Encodes the policy extension; fails exactly when the table cannot fit
/// on the wire.
pub fn encode_group_extension(e: &FireflyGroupExtension) -> (r: Result<Vec<u8>, CodecError>)
    ensures
        match r {
            Ok(v) => context_encodable(e@) && v@ == spec_encode_context(e@),
            Err(_) => !context_encodable(e@),
        },
{
    let mut out: Vec<u8> = Vec::new();
    if !encode_roles_into(&mut out, &e.context.roles) {
        return Err(CodecError);
    }
    if !encode_channels_into(&mut out, &e.context.channels) {
        return Err(CodecError);
    }
    proof {
        assert(out@ =~= spec_encode_context(e@));
    }
    Ok(out)
}

/// Decodes the policy extension from the whole of `b`; fails exactly when
/// the bytes are malformed or not fully consumed.
pub fn decode_group_extension(b: &Vec<u8>) -> (r: Result<FireflyGroupExtension, CodecError>)
    ensures
        match r {
            Ok(e) => spec_decode_context(b@) == Some((e@, b@.len() as int)),
            Err(_) => (spec_decode_context(b@) matches Some(p) ==> p.1 != b@.len()),
        },
{
    let end = b.len();
    proof {
        assert(b@.subrange(0, end as int) =~= b@);
    }
    let d1 = decode_roles(b, 0, end);
    if d1.is_none() {
        return Err(CodecError);
    }
    let (roles, p1) = d1.unwrap();
    proof {
        assert(b@.subrange(p1 as int, end as int) =~= b@.skip(p1 as int));
    }
    let d2 = decode_channels(b, p1, end);
    if d2.is_none() {
        return Err(CodecError);
    }
    let (channels, p2) = d2.unwrap();
    if p2 != end {
        return Err(CodecError);
    }
    Ok(FireflyGroupExtension { context: FireflyGroupContext { roles, channels } })
}
/// The payload shared by the custom user and message proposals: a channel
/// id, then one length-prefixed field.
pub open spec fn spec_encode_tagged_field(channel_id: u8, field: Seq<u8>) -> Seq<u8> {
    seq![channel_id] + spec_encode_bytes(field)
}

/// Reads a channel id and one length-prefixed field from the front of `b`.
pub open spec fn spec_decode_tagged_field(b: Seq<u8>) -> Option<((u8, Seq<u8>), int)> {
    if b.len() < 1 {
        None
    } else {
        match spec_decode_bytes(b.skip(1)) {
            Some(p) => Some(((b[0], p.0), 1 + p.1)),
            None => None,
        }
    }
}

/// A custom proposal payload reads back unchanged, whatever follows it.
pub proof fn lemma_tagged_field_round_trip(channel_id: u8, field: Seq<u8>, rest: Seq<u8>)
    requires
        bytes_encodable(field),
    ensures
        spec_decode_tagged_field(spec_encode_tagged_field(channel_id, field) + rest) == Some(
            ((channel_id, field), spec_encode_tagged_field(channel_id, field).len() as int),
        ),
{
    let e = spec_encode_tagged_field(channel_id, field);
    let b = e + rest;
    assert(b[0] == channel_id);
    assert(b.skip(1) =~= spec_encode_bytes(field) + rest);
    lemma_bytes_round_trip(field, rest);
}

/// Encodes a channel id and one field; fails exactly when the field is
/// longer than its length prefix can carry.
fn encode_tagged_field(channel_id: u8, field: &Vec<u8>) -> (r: Result<Vec<u8>, CodecError>)
    ensures
        match r {
            Ok(v) => bytes_encodable(field@) && v@ == spec_encode_tagged_field(
                channel_id,
                field@,
            ),
            Err(_) => !bytes_encodable(field@),
        },
{
    let mut out: Vec<u8> = Vec::new();
    out.push(channel_id);
    if !encode_bytes_into(&mut out, field) {
        return Err(CodecError);
    }
    proof {
        assert(out@ =~= spec_encode_tagged_field(channel_id, field@));
    }
    Ok(out)
}

/// Decodes a channel id and one field from the whole of `b`; fails exactly
/// when the bytes are malformed or not fully consumed.
fn decode_tagged_field(b: &Vec<u8>) -> (r: Result<(u8, Vec<u8>), CodecError>)
    ensures
        match r {
            Ok(p) => spec_decode_tagged_field(b@) == Some(((p.0, p.1.view()), b@.len() as int)),
            Err(_) => (spec_decode_tagged_field(b@) matches Some(q) ==> q.1 != b@.len()),
        },
{
    let end = b.len();
    if end < 1 {
        return Err(CodecError);
    }
    let channel_id = b[0];
    proof {
        assert(b@.subrange(1, end as int) =~= b@.skip(1));
    }
    let d = decode_bytes(b, 1, end);
    if d.is_none() {
        return Err(CodecError);
    }
    let (field, p) = d.unwrap();
    if p != end {
        return Err(CodecError);
    }
    Ok((channel_id, field))
}

/// Encodes the add-user payload: channel id, then the username.
pub fn encode_add_user_proposal(p: &AddUserProposal) -> (r: Result<Vec<u8>, CodecError>)
    ensures
        match r {
            Ok(v) => bytes_encodable(p.username@) && v@ == spec_encode_tagged_field(
                p.channel_id,
                p.username@,
            ),
            Err(_) => !bytes_encodable(p.username@),
        },
{
    encode_tagged_field(p.channel_id, &p.username)
}

/// Decodes the add-user payload from the whole of `b`.
pub fn decode_add_user_proposal(b: &Vec<u8>) -> (r: Result<AddUserProposal, CodecError>)
    ensures
        match r {
            Ok(p) => spec_decode_tagged_field(b@) == Some(
                ((p.channel_id, p.username@), b@.len() as int),
            ),
            Err(_) => (spec_decode_tagged_field(b@) matches Some(q) ==> q.1 != b@.len()),
        },
{
    match decode_tagged_field(b) {
        Ok((channel_id, username)) => Ok(AddUserProposal { channel_id, username }),
        Err(e) => Err(e),
    }
}

/// Encodes the remove-user payload: channel id, then the username.
pub fn encode_remove_user_proposal(p: &RemoveUserProposal) -> (r: Result<Vec<u8>, CodecError>)
    ensures
        match r {
            Ok(v) => bytes_encodable(p.username@) && v@ == spec_encode_tagged_field(
                p.channel_id,
                p.username@,
            ),
            Err(_) => !bytes_encodable(p.username@),
        },
{
    encode_tagged_field(p.channel_id, &p.username)
}

/// Decodes the remove-user payload from the whole of `b`.
pub fn decode_remove_user_proposal(b: &Vec<u8>) -> (r: Result<RemoveUserProposal, CodecError>)
    ensures
        match r {
            Ok(p) => spec_decode_tagged_field(b@) == Some(
                ((p.channel_id, p.username@), b@.len() as int),
            ),
            Err(_) => (spec_decode_tagged_field(b@) matches Some(q) ==> q.1 != b@.len()),
        },
{
    match decode_tagged_field(b) {
        Ok((channel_id, username)) => Ok(RemoveUserProposal { channel_id, username }),
        Err(e) => Err(e),
    }
}

/// Encodes the add-message payload: channel id, then the content.
pub fn encode_add_message_proposal(p: &AddMessageProposal) -> (r: Result<Vec<u8>, CodecError>)
    ensures
        match r {
            Ok(v) => bytes_encodable(p.content@) && v@ == spec_encode_tagged_field(
                p.channel_id,
                p.content@,
            ),
            Err(_) => !bytes_encodable(p.content@),
        },
{
    encode_tagged_field(p.channel_id, &p.content)
}

/// Decodes the add-message payload from the whole of `b`.
pub fn decode_add_message_proposal(b: &Vec<u8>) -> (r: Result<AddMessageProposal, CodecError>)
    ensures
        match r {
            Ok(p) => spec_decode_tagged_field(b@) == Some(
                ((p.channel_id, p.content@), b@.len() as int),
            ),
            Err(_) => (spec_decode_tagged_field(b@) matches Some(q) ==> q.1 != b@.len()),
        },
{
    match decode_tagged_field(b) {
        Ok((channel_id, content)) => Ok(AddMessageProposal { channel_id, content }),
        Err(e) => Err(e),
    }
}

} // verus!
