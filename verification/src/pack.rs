//! Single-file container holding many small cached objects.
//!
//! The cache service charges per entry: two calls to store one object, and the limit is shared
//! across the jobs running at once. Objects large enough to be worth that cost stay as entries of
//! their own, where they also deduplicate across every job and run. Everything below the threshold
//! is collected here and stored as one entry, which is what makes caching the long tail of small
//! downloads affordable at all.
//!
//! Bodies are already compressed — crates, wheels, tarballs — so the container does not compress
//! again.

use crate::wire;
use bytes::Bytes;
use vstd::prelude::*;
use vstd::utf8::{decode_utf8, encode_utf8, valid_utf8};

verus! {

/// An object of a container: its key and its body.
pub type Object = (Seq<char>, Seq<u8>);

/// Why a buffer is not read as a container.
#[derive(Debug, Clone, Copy, PartialEq, Eq, Structural)]
pub enum PackError {
    /// It does not begin as a container does.
    NotAPack,
}

/// The bytes that a container begins with.
pub open spec fn magic() -> Seq<u8> {
    seq!['C' as u8, 'I' as u8, 'C' as u8, 'P' as u8]
}

/// The objects of a vector, as keys and bodies.
pub open spec fn objects_of(v: Seq<(String, Bytes)>) -> Seq<Object> {
    v.map_values(|o: (String, Bytes)| (o.0@, wire::content(o.1)))
}

/// One object as the container holds it: the length of the key in four bytes, the key, the length
/// of the body in eight bytes, the body.
pub open spec fn record(o: Object) -> Seq<u8> {
    wire::le_bytes(encode_utf8(o.0).len(), 4) + encode_utf8(o.0) + wire::le_bytes(o.1.len(), 8)
        + o.1
}

/// The records of several objects, one behind the other.
pub open spec fn records(objects: Seq<Object>) -> Seq<u8>
    decreases objects.len(),
{
    if objects.len() == 0 {
        Seq::empty()
    } else {
        records(objects.drop_last()) + record(objects.last())
    }
}

/// A container of the objects.
pub open spec fn container(objects: Seq<Object>) -> Seq<u8> {
    magic() + records(objects)
}

/// The objects that a container of at most `max` bytes has room for, each taken in its turn where
/// the container does not grow past `max`.
pub open spec fn kept(objects: Seq<Object>, max: nat) -> Seq<Object>
    decreases objects.len(),
{
    if objects.len() == 0 {
        objects
    } else {
        let before = kept(objects.drop_last(), max);
        if container(before.push(objects.last())).len() <= max {
            before.push(objects.last())
        } else {
            before
        }
    }
}

/// The first object of a run of records and the bytes that it takes, where the run begins with a
/// whole record.
pub open spec fn first_object(s: Seq<u8>) -> Option<(Object, nat)> {
    let key_len = wire::le_value(s.take(4));
    let body_len = wire::le_value(s.subrange(4 + key_len as int, 12 + key_len as int));
    let key = s.subrange(4, 4 + key_len as int);
    if s.len() < 4 || s.len() < 12 + key_len || !valid_utf8(key) || s.len() < 12 + key_len
        + body_len {
        None
    } else {
        Some(
            (
                (
                    decode_utf8(key),
                    s.subrange(12 + key_len as int, 12 + key_len as int + body_len as int),
                ),
                12 + key_len + body_len,
            ),
        )
    }
}

/// The objects of a run of records, up to the first that is not whole.
pub open spec fn unpacked(s: Seq<u8>) -> Seq<Object>
    decreases s.len(),
{
    match first_object(s) {
        None => Seq::empty(),
        Some((o, n)) => seq![o] + unpacked(s.skip(n as int)),
    }
}

/// Serialises `objects` into one buffer, skipping any that would take it past `max_bytes`.
pub fn encode(objects: &[(String, Bytes)], max_bytes: u64) -> (out: Bytes)
    ensures
        wire::content(out) == container(kept(objects_of(objects@), max_bytes as nat)),
{
    let mut out: Vec<u8> = Vec::new();
    out.push('C' as u8);
    out.push('I' as u8);
    out.push('C' as u8);
    out.push('P' as u8);
    let mut i: usize = 0;
    assert(objects_of(objects@.take(0)) =~= Seq::<Object>::empty());
    assert(out@ =~= container(kept(objects_of(objects@.take(0)), max_bytes as nat)));
    while i < objects.len()
        invariant
            i <= objects.len(),
            out@ == container(kept(objects_of(objects@.take(i as int)), max_bytes as nat)),
        decreases objects.len() - i,
    {
        let key = wire::text_bytes(objects[i].0.as_str());
        let body = wire::as_slice(&objects[i].1);
        let ghost now = objects_of(objects@.take(i + 1));
        let ghost o: Object = (objects@[i as int].0@, wire::content(objects@[i as int].1));
        let ghost before = kept(now.drop_last(), max_bytes as nat);
        assert(now.drop_last() =~= objects_of(objects@.take(i as int)));
        assert(now.last() == o);
        proof {
            lemma_record_len(o);
            assert(before.push(o).drop_last() =~= before);
            assert(records(before.push(o)) == records(before) + record(o));
            assert(container(before.push(o)) =~= out@ + record(o));
        }
        let size: u128 = out.len() as u128 + 12 + key.len() as u128 + body.len() as u128;
        if size <= max_bytes as u128 {
            wire::push_le(&mut out, key.len() as u64, 4);
            wire::push_all(&mut out, key);
            wire::push_le(&mut out, body.len() as u64, 8);
            wire::push_all(&mut out, body);
            assert(out@ =~= container(before.push(o)));
        }
        i = i + 1;
    }
    assert(objects@.take(i as int) == objects@);
    wire::from_vec(out)
}

/// A record takes twelve bytes more than its key and its body.
proof fn lemma_record_len(o: Object)
    ensures
        record(o).len() == 12 + encode_utf8(o.0).len() + o.1.len(),
{
    wire::lemma_le_round_trip(encode_utf8(o.0).len(), 4);
    wire::lemma_le_round_trip(o.1.len(), 8);
}

/// Reads back what [`encode`] wrote. A truncated container yields the records that were intact,
/// since a partial cache is still better than none.
pub fn decode(raw: &Bytes) -> (out: Result<Vec<(String, Bytes)>, PackError>)
    ensures
        out is Ok <==> magic().is_prefix_of(wire::content(*raw)),
        out matches Ok(objects) ==> objects_of(objects@) == unpacked(wire::content(*raw).skip(4)),
        out matches Err(e) ==> e is NotAPack,
{
    let all = wire::as_slice(raw);
    if all.len() < 4 || all[0] != 'C' as u8 || all[1] != 'I' as u8 || all[2] != 'C' as u8 || all[3]
        != 'P' as u8 {
        proof {
            if magic().is_prefix_of(all@) {
                assert(all@.subrange(0, 4) == magic());
                assert(all@[0] == all@.subrange(0, 4)[0]);
                assert(all@[1] == all@.subrange(0, 4)[1]);
                assert(all@[2] == all@.subrange(0, 4)[2]);
                assert(all@[3] == all@.subrange(0, 4)[3]);
            }
        }
        return Err(PackError::NotAPack);
    }
    assert(all@.subrange(0, 4) =~= magic());
    let mut objects: Vec<(String, Bytes)> = Vec::new();
    let mut at: usize = 4;
    assert(objects_of(objects@) + unpacked(all@.skip(4)) =~= unpacked(all@.skip(4)));
    loop
        invariant
            all@ == wire::content(*raw),
            4 <= at <= all.len(),
            objects_of(objects@) + unpacked(all@.skip(at as int)) == unpacked(all@.skip(4)),
        ensures
            unpacked(all@.skip(at as int)) == Seq::<Object>::empty(),
            objects_of(objects@) + unpacked(all@.skip(at as int)) == unpacked(all@.skip(4)),
        decreases all.len() - at,
    {
        let ghost s = all@.skip(at as int);
        let left: usize = all.len() - at;
        if left < 4 {
            break;
        }
        let key_len: u64 = wire::read_le(all, at, 4);
        proof {
            wire::lemma_le_range();
            assert(s.take(4) =~= all@.subrange(at as int, at + 4));
        }
        if (left as u128) < 12 + key_len as u128 {
            break;
        }
        let key_end: usize = at + 4 + key_len as usize;
        let key_bytes = vstd::slice::slice_subrange(all, at + 4, key_end);
        assert(s.subrange(4, 4 + key_len as int) =~= key_bytes@);
        let key = match wire::utf8_text(key_bytes) {
            Some(key) => key,
            None => {
                break;
            },
        };
        let body_len: u64 = wire::read_le(all, key_end, 8);
        assert(s.subrange(4 + key_len as int, 12 + key_len as int) =~= all@.subrange(
            key_end as int,
            key_end + 8,
        ));
        if (left as u128) < 12 + key_len as u128 + body_len as u128 {
            break;
        }
        let from: usize = key_end + 8;
        let to: usize = from + body_len as usize;
        let body = wire::slice(raw, from, to);
        assert(s.subrange(12 + key_len as int, 12 + key_len as int + body_len as int)
            =~= wire::content(body));
        let ghost o: Object = (key@, wire::content(body));
        let ghost before = objects_of(objects@);
        objects.push((key, body));
        assert(objects_of(objects@) =~= before.push(o));
        assert(s.skip((12 + key_len + body_len) as int) =~= all@.skip(to as int));
        assert(unpacked(s) == seq![o] + unpacked(all@.skip(to as int)));
        assert(before + (seq![o] + unpacked(all@.skip(to as int))) =~= before.push(o) + unpacked(
            all@.skip(to as int),
        ));
        at = to;
    }
    assert(objects_of(objects@) + Seq::<Object>::empty() =~= objects_of(objects@));
    Ok(objects)
}

/// Whether the lengths of an object fit the fields that a record has for them.
pub open spec fn fits_record(o: Object) -> bool {
    encode_utf8(o.0).len() <= u32::MAX && o.1.len() <= u64::MAX
}

/// A record is read back, whatever follows it.
proof fn lemma_first_object(o: Object, rest: Seq<u8>)
    requires
        fits_record(o),
    ensures
        first_object(record(o) + rest) == Some((o, record(o).len())),
{
    let key = encode_utf8(o.0);
    let s = record(o) + rest;
    wire::lemma_le_range();
    wire::lemma_le_round_trip(key.len(), 4);
    wire::lemma_le_round_trip(o.1.len(), 8);
    lemma_record_len(o);
    assert(s.take(4) =~= wire::le_bytes(key.len(), 4));
    assert(s.subrange(4, 4 + key.len() as int) =~= key);
    assert(s.subrange(4 + key.len() as int, 12 + key.len() as int) =~= wire::le_bytes(
        o.1.len(),
        8,
    ));
    assert(s.subrange(12 + key.len() as int, 12 + key.len() as int + o.1.len() as int) =~= o.1);
    vstd::utf8::encode_utf8_valid_utf8(o.0);
    vstd::utf8::encode_utf8_decode_utf8(o.0);
}

/// Nothing is read from the beginning of a record that is not whole.
proof fn lemma_cut_object(o: Object, n: int)
    requires
        fits_record(o),
        0 <= n < record(o).len(),
    ensures
        first_object(record(o).take(n)) is None,
{
    let key = encode_utf8(o.0);
    let s = record(o).take(n);
    wire::lemma_le_range();
    wire::lemma_le_round_trip(key.len(), 4);
    wire::lemma_le_round_trip(o.1.len(), 8);
    lemma_record_len(o);
    if n >= 4 {
        assert(s.take(4) =~= wire::le_bytes(key.len(), 4));
        if n >= 12 + key.len() {
            assert(s.subrange(4 + key.len() as int, 12 + key.len() as int) =~= wire::le_bytes(
                o.1.len(),
                8,
            ));
        }
    }
}

/// The records of several objects begin with the record of the first.
proof fn lemma_records_front(objects: Seq<Object>)
    requires
        objects.len() > 0,
    ensures
        records(objects) == record(objects[0]) + records(objects.drop_first()),
    decreases objects.len(),
{
    if objects.len() == 1 {
        assert(objects.drop_last() =~= Seq::<Object>::empty());
        assert(objects.drop_first() =~= Seq::<Object>::empty());
        assert(records(objects) =~= record(objects[0]) + records(objects.drop_first()));
    } else {
        lemma_records_front(objects.drop_last());
        assert(objects.drop_last().drop_first() =~= objects.drop_first().drop_last());
        assert(records(objects) =~= record(objects[0]) + records(objects.drop_first()));
    }
}

/// How many of the objects are whole in the first `n` bytes of their records.
pub open spec fn whole(objects: Seq<Object>, n: int) -> nat
    decreases objects.len(),
{
    if objects.len() == 0 || n < record(objects[0]).len() {
        0
    } else {
        1 + whole(objects.drop_first(), n - record(objects[0]).len())
    }
}

/// What is read from the first `n` bytes of records.
#[verifier::spinoff_prover]
#[verifier::rlimit(60)]
proof fn lemma_unpacked_prefix(objects: Seq<Object>, n: int)
    requires
        forall|i: int| 0 <= i < objects.len() ==> fits_record(#[trigger] objects[i]),
        0 <= n <= records(objects).len(),
    ensures
        whole(objects, n) <= objects.len(),
        unpacked(records(objects).take(n)) == objects.take(whole(objects, n) as int),
        records(objects.take(whole(objects, n) as int)).len() <= n,
        whole(objects, n) < objects.len() ==> n < records(
            objects.take(whole(objects, n) as int + 1),
        ).len(),
    decreases objects.len(),
{
    let s = records(objects).take(n);
    if objects.len() == 0 {
        assert(s =~= Seq::<u8>::empty());
        assert(unpacked(s) =~= objects.take(0));
    } else {
        let o = objects[0];
        let rest = objects.drop_first();
        lemma_records_front(objects);
        lemma_record_len(o);
        if n < record(o).len() {
            assert(s =~= record(o).take(n));
            lemma_cut_object(o, n);
            assert(unpacked(s) =~= objects.take(0));
            assert(objects.take(0) =~= Seq::<Object>::empty());
            assert(objects.take(1).drop_last() =~= Seq::<Object>::empty());
            assert(objects.take(1).last() == o);
        } else {
            let m = n - record(o).len();
            let k = whole(rest, m) as int;
            assert forall|i: int| 0 <= i < rest.len() implies fits_record(#[trigger] rest[i]) by {
                assert(rest[i] == objects[i + 1]);
            }
            lemma_unpacked_prefix(rest, m);
            assert(s =~= record(o) + records(rest).take(m));
            lemma_first_object(o, records(rest).take(m));
            assert(s.skip(record(o).len() as int) =~= records(rest).take(m));
            assert(unpacked(s) =~= objects.take(k + 1));
            assert(objects.take(k + 1).drop_first() =~= rest.take(k));
            lemma_records_front(objects.take(k + 1));
            if k < rest.len() {
                assert(objects.take(k + 2).drop_first() =~= rest.take(k + 1));
                lemma_records_front(objects.take(k + 2));
            }
        }
    }
}

/// What [`encode`] wrote, [`decode`] reads back: every object that the container had room for, in
/// order.
pub proof fn law_round_trip(objects: Seq<Object>, max: nat)
    requires
        forall|i: int| 0 <= i < objects.len() ==> fits_record(#[trigger] objects[i]),
    ensures
        magic().is_prefix_of(container(kept(objects, max))),
        unpacked(container(kept(objects, max)).skip(4)) == kept(objects, max),
{
    let k = kept(objects, max);
    lemma_kept_among(objects, max);
    assert forall|i: int| 0 <= i < k.len() implies fits_record(#[trigger] k[i]) by {
        assert(objects.contains(k[i]));
    }
    let n = records(k).len() as int;
    lemma_unpacked_prefix(k, n);
    if whole(k, n) < k.len() {
        let w = whole(k, n) as int;
        lemma_records_longer(k, w + 1);
    }
    assert(k.take(k.len() as int) =~= k);
    assert(records(k).take(n) =~= records(k));
    assert(container(k).skip(4) =~= records(k));
    assert(container(k).subrange(0, 4) =~= magic());
}

/// Fewer objects take no more bytes.
proof fn lemma_records_longer(objects: Seq<Object>, n: int)
    requires
        0 <= n <= objects.len(),
    ensures
        records(objects.take(n)).len() <= records(objects).len(),
    decreases objects.len(),
{
    if n == objects.len() {
        assert(objects.take(n) =~= objects);
    } else {
        lemma_records_longer(objects.drop_last(), n);
        assert(objects.drop_last().take(n) =~= objects.take(n));
    }
}

/// Nothing is kept that was not given.
proof fn lemma_kept_among(objects: Seq<Object>, max: nat)
    ensures
        forall|i: int| 0 <= i < kept(objects, max).len() ==> objects.contains(
            #[trigger] kept(objects, max)[i],
        ),
    decreases objects.len(),
{
    let k = kept(objects, max);
    if objects.len() > 0 {
        let before = objects.drop_last();
        lemma_kept_among(before, max);
        assert forall|i: int| 0 <= i < k.len() implies objects.contains(#[trigger] k[i]) by {
            if i < kept(before, max).len() {
                assert(before.contains(kept(before, max)[i]));
                let j = choose|j: int| 0 <= j < before.len() && before[j] == k[i];
                assert(objects[j] == k[i]);
            } else {
                assert(objects[objects.len() - 1] == k[i]);
            }
        }
    }
}

/// Where every object has room, none is skipped.
pub proof fn law_nothing_is_skipped_without_need(objects: Seq<Object>, max: nat)
    requires
        container(objects).len() <= max,
    ensures
        kept(objects, max) == objects,
    decreases objects.len(),
{
    if objects.len() > 0 {
        law_nothing_is_skipped_without_need(objects.drop_last(), max);
        assert(objects.drop_last().push(objects.last()) =~= objects);
    }
}

/// A container never grows past the ceiling, unless the ceiling is below the four bytes that every
/// container begins with.
pub proof fn law_size_ceiling(objects: Seq<Object>, max: nat)
    ensures
        container(kept(objects, max)).len() <= max || (kept(objects, max).len() == 0 && max < 4),
    decreases objects.len(),
{
    if objects.len() > 0 {
        law_size_ceiling(objects.drop_last(), max);
    }
}

/// A container cut off after `n` bytes still yields every object whose record is whole, and no
/// other.
pub proof fn law_truncation(objects: Seq<Object>, n: int)
    requires
        forall|i: int| 0 <= i < objects.len() ==> fits_record(#[trigger] objects[i]),
        4 <= n <= container(objects).len(),
    ensures
        magic().is_prefix_of(container(objects).take(n)),
        ({
            let k = unpacked(container(objects).take(n).skip(4)).len() as int;
            &&& k <= objects.len()
            &&& unpacked(container(objects).take(n).skip(4)) == objects.take(k)
            &&& container(objects.take(k)).len() <= n
            &&& k < objects.len() ==> n < container(objects.take(k + 1)).len()
        }),
{
    lemma_unpacked_prefix(objects, n - 4);
    assert(container(objects).take(n).skip(4) =~= records(objects).take(n - 4));
    assert(container(objects).take(n).subrange(0, 4) =~= magic());
}

/// A container begins with four bytes that name the format.
pub proof fn law_containers_are_marked(objects: Seq<Object>)
    ensures
        container(objects).take(4) == seq![67u8, 73u8, 67u8, 80u8],
        container(Seq::empty()).len() == 4,
{
    assert(container(objects).take(4) =~= seq![67u8, 73u8, 67u8, 80u8]);
}

/// Behind those of the others, the bytes of an object are the length of its key in four bytes, the
/// key, the length of its body in eight bytes, and the body; lengths have their lowest byte first.
#[verifier::spinoff_prover]
#[verifier::rlimit(60)]
pub proof fn law_the_layout_of_an_object(objects: Seq<Object>, o: Object)
    requires
        encode_utf8(o.0).len() < 0x1_0000_0000,
        o.1.len() < 0x1_0000_0000,
    ensures
        ({
            let before = container(objects);
            let raw = container(objects.push(o)).skip(before.len() as int);
            let n = encode_utf8(o.0).len() as int;
            &&& container(objects.push(o)).take(before.len() as int) == before
            &&& raw.len() == 12 + n + o.1.len()
            &&& raw[0] + 256 * (raw[1] + 256 * (raw[2] + 256 * raw[3])) == n
            &&& raw.subrange(4, 4 + n) == encode_utf8(o.0)
            &&& raw[4 + n] + 256 * (raw[5 + n] + 256 * (raw[6 + n] + 256 * raw[7 + n]))
                == o.1.len()
            &&& raw[8 + n] == 0 && raw[9 + n] == 0 && raw[10 + n] == 0 && raw[11 + n] == 0
            &&& raw.skip(12 + n) == o.1
        }),
{
    let key = encode_utf8(o.0);
    let n = key.len() as int;
    let size = o.1.len();
    let before = container(objects);
    let whole = container(objects.push(o));
    let raw = whole.skip(before.len() as int);
    assert(objects.push(o).drop_last() =~= objects);
    assert(whole =~= before + record(o));
    assert(whole.take(before.len() as int) =~= before);
    assert(raw =~= record(o));
    wire::lemma_le_range();
    wire::lemma_le_round_trip(key.len(), 4);
    wire::lemma_le_round_trip(size, 8);
    lemma_record_len(o);
    wire::law_lowest_byte_first(key.len(), wire::le_bytes(key.len(), 4));
    let low = wire::le_bytes(size, 4);
    wire::lemma_le_round_trip(size, 4);
    wire::law_lowest_byte_first(size, low);
    assert(wire::le_bytes(size, 8) =~= low + seq![0u8, 0u8, 0u8, 0u8]) by {
        lemma_high_bytes(size);
    }
    let a = raw.take(4);
    assert(a =~= wire::le_bytes(key.len(), 4));
    assert(raw[0] == a[0] && raw[1] == a[1] && raw[2] == a[2] && raw[3] == a[3]);
    let b = raw.subrange(4 + n, 12 + n);
    assert(b =~= wire::le_bytes(size, 8));
    assert(raw[4 + n] == b[0] && raw[5 + n] == b[1] && raw[6 + n] == b[2] && raw[7 + n] == b[3]);
    assert(raw[8 + n] == b[4] && raw[9 + n] == b[5] && raw[10 + n] == b[6] && raw[11 + n] == b[7]);
    assert(raw.subrange(4, 4 + n) =~= key);
    assert(raw.skip(12 + n) =~= o.1);
}

/// The high half of the eight bytes of a number that four can spell is empty.
proof fn lemma_high_bytes(n: nat)
    requires
        n < 0x1_0000_0000,
    ensures
        wire::le_bytes(n, 8) == wire::le_bytes(n, 4) + seq![0u8, 0u8, 0u8, 0u8],
{
    reveal_with_fuel(wire::le_bytes, 9);
    assert(n / 256 / 256 / 256 / 256 == 0);
    assert(wire::le_bytes(n, 8) =~= wire::le_bytes(n, 4) + seq![0u8, 0u8, 0u8, 0u8]);
}

/// Each object is kept where the container has room for it and for those that were kept before it, and
/// is skipped where not; the ones behind it are tried all the same.
pub proof fn law_objects_are_kept_where_there_is_room(objects: Seq<Object>, o: Object, max: nat)
    ensures
        kept(Seq::empty(), max).len() == 0,
        kept(objects.push(o), max) == if container(kept(objects, max)).len() + 12 + encode_utf8(
            o.0,
        ).len() + o.1.len() <= max {
            kept(objects, max).push(o)
        } else {
            kept(objects, max)
        },
{
    let before = kept(objects, max);
    assert(objects.push(o).drop_last() =~= objects);
    assert(before.push(o).drop_last() =~= before);
    lemma_record_len(o);
}

/// Objects are packed as they are laid out, and unpacked where the format is named; anything else is
/// no pack.
pub proof fn law_packs_are_written_and_read(
    objects: &[(String, Bytes)],
    max_bytes: u64,
    packed: Bytes,
    raw: &Bytes,
    read: Result<Vec<(String, Bytes)>, PackError>,
)
    requires
        call_ensures(encode, (objects, max_bytes), packed),
        call_ensures(decode, (raw,), read),
    ensures
        wire::content(packed) == container(kept(objects_of(objects@), max_bytes as nat)),
        read is Ok <==> wire::content(*raw).len() >= 4 && wire::content(*raw).take(4) == seq![
            67u8,
            73u8,
            67u8,
            80u8,
        ],
        read matches Ok(list) ==> objects_of(list@) == unpacked(wire::content(*raw).skip(4)),
{
    let bytes = wire::content(*raw);
    assert(magic() =~= seq![67u8, 73u8, 67u8, 80u8]);
    if bytes.len() >= 4 {
        assert(bytes.take(4) =~= bytes.subrange(0, 4));
    }
}

/// Objects are read one by one: each as long as its lengths say, and up to the first that is not whole
/// or whose key is no text.
pub proof fn law_objects_are_read_in_order(o: Object, rest: Seq<u8>, cut: int)
    requires
        fits_record(o),
        0 <= cut < record(o).len(),
    ensures
        unpacked(record(o) + rest) == seq![o] + unpacked(rest),
        unpacked(record(o).take(cut)).len() == 0,
        unpacked(Seq::empty()).len() == 0,
{
    lemma_first_object(o, rest);
    assert((record(o) + rest).skip(record(o).len() as int) =~= rest);
    lemma_cut_object(o, cut);
    lemma_record_len(o);
}

/// An object shows its key and its body.
pub proof fn law_objects_show_their_parts(v: Seq<(String, Bytes)>, i: int)
    requires
        0 <= i < v.len(),
    ensures
        objects_of(v).len() == v.len(),
        objects_of(v)[i] == (v[i].0@, wire::content(v[i].1)),
{
}

/// What is read first from a run of records: nothing where the run ends before the lengths or what
/// they announce, or where the key is no text; otherwise that key and that body, and then what is read
/// from the rest.
pub proof fn law_reading_objects(s: Seq<u8>, key_len: int, key: Seq<u8>, body_len: int)
    requires
        s.len() >= 4,
        key_len == s[0] + 256 * (s[1] + 256 * (s[2] + 256 * s[3])),
        s.len() >= 12 + key_len ==> key == s.subrange(4, 4 + key_len) && body_len == wire::le_value(
            s.subrange(4 + key_len, 12 + key_len),
        ),
    ensures
        s.len() < 12 + key_len ==> unpacked(s).len() == 0,
        s.len() >= 12 + key_len && !valid_utf8(key) ==> unpacked(s).len() == 0,
        s.len() >= 12 + key_len && s.len() < 12 + key_len + body_len ==> unpacked(s).len() == 0,
        s.len() >= 12 + key_len && valid_utf8(key) && s.len() >= 12 + key_len + body_len ==> unpacked(
            s,
        ) == seq![
            (decode_utf8(key), s.subrange(12 + key_len, 12 + key_len + body_len)),
        ] + unpacked(s.skip(12 + key_len + body_len)),
{
    let field = s.take(4);
    wire::law_lowest_byte_first(0, field);
    assert(field[0] == s[0] && field[1] == s[1] && field[2] == s[2] && field[3] == s[3]);
    assert(wire::le_value(field) == key_len);
}

} // verus!
