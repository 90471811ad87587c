//! Byte encoding of records, and the schema-derived record key.
//!
//! The transactional store holds raw byte sequences, so a record is written
//! as its encoding and read back through the decoder. Decoding an encoded
//! record yields the record again; the round trip is proved below, which is
//! what makes a mandatory retrieve-old return exactly the record last
//! written.

use vstd::prelude::*;

use crate::bytes::push_u64_be_bytes;
use crate::bytes::spec_u64_from_be_bytes;
use crate::bytes::spec_u64_to_be_bytes;
use crate::bytes::u64_from_be_bytes;
use crate::types::Field;
use crate::types::FieldV;
use crate::types::Record;

verus! {

/// The byte encoding of one field: a tag byte, then a fixed eight-byte value
/// for the integers, or a length-prefixed payload for raw bytes.
pub open spec fn spec_field_bytes(f: FieldV) -> Seq<u8> {
    match f {
        FieldV::Null => seq![0u8],
        FieldV::Int(i) => seq![1u8] + spec_u64_to_be_bytes(i as u64),
        FieldV::UInt(u) => seq![2u8] + spec_u64_to_be_bytes(u),
        FieldV::Bytes(b) => seq![3u8] + spec_u64_to_be_bytes(b.len() as u64) + b,
    }
}

/// A field whose encoding can be read back exactly: a byte payload fits the
/// eight-byte length prefix. Every field held in an executable record
/// satisfies this.
pub open spec fn spec_field_wf(f: FieldV) -> bool {
    match f {
        FieldV::Bytes(b) => b.len() <= u64::MAX,
        _ => true,
    }
}

pub open spec fn spec_fields_wf(fs: Seq<FieldV>) -> bool {
    forall|i: int| 0 <= i < fs.len() ==> spec_field_wf(#[trigger] fs[i])
}

/// The concatenated encodings of a sequence of fields.
pub open spec fn spec_fields_bytes(fs: Seq<FieldV>) -> Seq<u8>
    decreases fs.len(),
{
    if fs.len() == 0 {
        Seq::empty()
    } else {
        spec_field_bytes(fs.first()) + spec_fields_bytes(fs.drop_first())
    }
}

/// The byte encoding of a whole record: the big-endian field count followed
/// by the field encodings.
pub open spec fn spec_record_bytes(r: Seq<FieldV>) -> Seq<u8> {
    spec_u64_to_be_bytes(r.len() as u64) + spec_fields_bytes(r)
}

/// A record whose encoding can be read back exactly.
pub open spec fn spec_record_wf(r: Seq<FieldV>) -> bool {
    r.len() <= u64::MAX && spec_fields_wf(r)
}

pub proof fn lemma_fields_bytes_snoc(fs: Seq<FieldV>, f: FieldV)
    ensures
        spec_fields_bytes(fs.push(f)) == spec_fields_bytes(fs) + spec_field_bytes(f),
    decreases fs.len(),
{
    if fs.len() == 0 {
        assert(fs.push(f).drop_first() =~= fs);
        assert(spec_fields_bytes(fs.push(f)) =~= spec_fields_bytes(fs) + spec_field_bytes(f));
    } else {
        assert(fs.push(f).drop_first() =~= fs.drop_first().push(f));
        assert(fs.push(f).first() == fs.first());
        lemma_fields_bytes_snoc(fs.drop_first(), f);
        assert(spec_fields_bytes(fs.push(f)) =~= spec_fields_bytes(fs) + spec_field_bytes(f));
    }
}

/// The key of a record under a primary index: the concatenated encodings of
/// the indexed fields, in index order.
pub open spec fn spec_record_key(rec: Seq<FieldV>, idx: Seq<usize>) -> Seq<u8>
    decreases idx.len(),
{
    if idx.len() == 0 {
        Seq::empty()
    } else {
        spec_field_bytes(rec[idx.first() as int]) + spec_record_key(rec, idx.drop_first())
    }
}

pub proof fn lemma_record_key_snoc(rec: Seq<FieldV>, idx: Seq<usize>, p: usize)
    ensures
        spec_record_key(rec, idx.push(p)) == spec_record_key(rec, idx) + spec_field_bytes(
            rec[p as int]),
    decreases idx.len(),
{
    if idx.len() == 0 {
        assert(idx.push(p).drop_first() =~= idx);
        assert(spec_record_key(rec, idx.push(p)) =~= spec_record_key(rec, idx) + spec_field_bytes(
            rec[p as int]));
    } else {
        assert(idx.push(p).drop_first() =~= idx.drop_first().push(p));
        assert(idx.push(p).first() == idx.first());
        lemma_record_key_snoc(rec, idx.drop_first(), p);
        assert(spec_record_key(rec, idx.push(p)) =~= spec_record_key(rec, idx) + spec_field_bytes(
            rec[p as int]));
    }
}

/// A record's key depends only on its primary-index projection: two
/// records that agree on every indexed field have the same key, whatever
/// their other fields hold.
pub proof fn lemma_key_of_projection(r1: Seq<FieldV>, r2: Seq<FieldV>, idx: Seq<usize>)
    requires
        forall|i: int| 0 <= i < idx.len() ==> (#[trigger] idx[i]) < r1.len() && idx[i] < r2.len()
            && r1[idx[i] as int] == r2[idx[i] as int],
    ensures
        spec_record_key(r1, idx) == spec_record_key(r2, idx),
    decreases idx.len(),
{
    if idx.len() > 0 {
        let rest = idx.drop_first();
        assert forall|i: int| 0 <= i < rest.len() implies (#[trigger] rest[i]) < r1.len()
            && rest[i] < r2.len() && r1[rest[i] as int] == r2[rest[i] as int] by {
            assert(rest[i] == idx[i + 1]);
        }
        lemma_key_of_projection(r1, r2, rest);
        assert(idx[0] == idx.first());
    }
}

/// The fields a primary index picks out of a record, in index order.
pub open spec fn spec_projection(rec: Seq<FieldV>, idx: Seq<usize>) -> Seq<FieldV> {
    idx.map_values(|p: usize| rec[p as int])
}

/// A record's key is exactly the byte encoding of its primary-index
/// projection.
pub proof fn lemma_record_key_is_projection_bytes(rec: Seq<FieldV>, idx: Seq<usize>)
    ensures
        spec_record_key(rec, idx) == spec_fields_bytes(spec_projection(rec, idx)),
    decreases idx.len(),
{
    if idx.len() == 0 {
        assert(spec_projection(rec, idx) =~= Seq::<FieldV>::empty());
    } else {
        let rest = idx.drop_first();
        lemma_record_key_is_projection_bytes(rec, rest);
        assert(spec_projection(rec, idx).drop_first() =~= spec_projection(rec, rest));
        assert(spec_projection(rec, idx).first() == rec[idx.first() as int]);
        assert(spec_projection(rec, idx).len() > 0);
    }
}

/// Keys are injective on projections: two records with the same key under
/// the same primary index agree on every indexed field, because the field
/// encoding is self-delimiting. Together with [`lemma_key_of_projection`],
/// two records are key-equal exactly when their primary-index projections
/// are equal.
pub proof fn lemma_key_determines_projection(r1: Seq<FieldV>, r2: Seq<FieldV>, idx: Seq<usize>)
    requires
        spec_fields_wf(spec_projection(r1, idx)),
        spec_fields_wf(spec_projection(r2, idx)),
        spec_record_key(r1, idx) == spec_record_key(r2, idx),
    ensures
        spec_projection(r1, idx) == spec_projection(r2, idx),
{
    let p1 = spec_projection(r1, idx);
    let p2 = spec_projection(r2, idx);
    lemma_record_key_is_projection_bytes(r1, idx);
    lemma_record_key_is_projection_bytes(r2, idx);
    let s = spec_fields_bytes(p1);
    assert(spec_fields_bytes(p2) == s);
    lemma_decode_fields_of_encoding(Seq::empty(), p1, Seq::empty());
    lemma_decode_fields_of_encoding(Seq::empty(), p2, Seq::empty());
    assert(Seq::<u8>::empty() + s + Seq::<u8>::empty() =~= s);
    assert(p1.len() == idx.len() && p2.len() == idx.len());
    assert(spec_decode_fields(s, 0, idx.len()) == Option::Some(
        (p1, (0 + s.len()) as int)));
    assert(spec_decode_fields(s, 0, idx.len()) == Option::Some(
        (p2, (0 + s.len()) as int)));
}

/// Appends the encoding of `f` to `out`.
pub fn push_field_bytes(out: &mut Vec<u8>, f: &Field)
    ensures
        final(out)@ == old(out)@ + spec_field_bytes(f@),
{
    match f {
        Field::Null => {
            out.push(0u8);
        },
        Field::Int(i) => {
            out.push(1u8);
            push_u64_be_bytes(out, *i as u64);
        },
        Field::UInt(u) => {
            out.push(2u8);
            push_u64_be_bytes(out, *u);
        },
        Field::Bytes(b) => {
            out.push(3u8);
            push_u64_be_bytes(out, b.len() as u64);
            let ghost mid = out@;
            let mut j: usize = 0;
            while j < b.len()
                invariant
                    j <= b@.len(),
                    out@ == mid + b@.subrange(0, j as int),
                decreases b@.len() - j,
            {
                out.push(b[j]);
                assert(b@.subrange(0, j + 1) =~= b@.subrange(0, j as int).push(b@[j as int]));
                j += 1;
            }
            assert(b@.subrange(0, b@.len() as int) =~= b@);
        },
    }
    assert(out@ =~= old(out)@ + spec_field_bytes(f@));
}

impl Record {
    /// The record's key under the given primary index: the indexed fields'
    /// encodings concatenated in index order. Key equality is equality of
    /// the indexed projections.
    pub fn get_key(&self, primary_index: &Vec<usize>) -> (r: Vec<u8>)
        requires
            forall|i: int| 0 <= i < primary_index@.len() ==> #[trigger] primary_index@[i]
                < self@.len(),
        ensures
            r@ == spec_record_key(self@, primary_index@),
    {
        let mut out: Vec<u8> = Vec::new();
        let mut i: usize = 0;
        while i < primary_index.len()
            invariant
                i <= primary_index@.len(),
                forall|k: int| 0 <= k < primary_index@.len() ==> #[trigger] primary_index@[k]
                    < self@.len(),
                out@ == spec_record_key(self@, primary_index@.subrange(0, i as int)),
            decreases primary_index@.len() - i,
        {
            let p = primary_index[i];
            push_field_bytes(&mut out, &self.values[p]);
            proof {
                assert(self.values@[p as int]@ == self@[p as int]);
                lemma_record_key_snoc(self@, primary_index@.subrange(0, i as int),
                    primary_index@[i as int]);
                assert(primary_index@.subrange(0, i + 1) =~= primary_index@.subrange(0,
                    i as int).push(primary_index@[i as int]));
            }
            i += 1;
        }
        assert(primary_index@.subrange(0, primary_index@.len() as int) =~= primary_index@);
        out
    }
}

/// The byte encoding of `rec`, as written into a bound table.
pub fn encode_record(rec: &Record) -> (r: Vec<u8>)
    ensures
        r@ == spec_record_bytes(rec@),
{
    let mut out: Vec<u8> = Vec::new();
    push_u64_be_bytes(&mut out, rec.values.len() as u64);
    let mut i: usize = 0;
    while i < rec.values.len()
        invariant
            i <= rec.values@.len(),
            out@ == spec_u64_to_be_bytes(rec.values@.len() as u64) + spec_fields_bytes(
                rec@.subrange(0, i as int)),
        decreases rec.values@.len() - i,
    {
        push_field_bytes(&mut out, &rec.values[i]);
        proof {
            assert(rec.values@[i as int]@ == rec@[i as int]);
            lemma_fields_bytes_snoc(rec@.subrange(0, i as int), rec@[i as int]);
            assert(rec@.subrange(0, i + 1) =~= rec@.subrange(0, i as int).push(rec@[i as int]));
        }
        i += 1;
    }
    assert(rec@.subrange(0, rec@.len() as int) =~= rec@);
    assert(rec@.len() == rec.values@.len());
    out
}

/// One decoding step: the field encoded at position `i` of `s`, and the
/// position just past it.
pub open spec fn spec_decode_field(s: Seq<u8>, i: int) -> Option<(FieldV, int)> {
    if i < 0 || i >= s.len() {
        Option::None
    } else if s[i] == 0 {
        Option::Some((FieldV::Null, i + 1))
    } else if s[i] == 1 {
        if i + 9 <= s.len() {
            Option::Some((FieldV::Int(spec_u64_from_be_bytes(s.subrange(i + 1, i + 9)) as i64), i
                + 9))
        } else {
            Option::None
        }
    } else if s[i] == 2 {
        if i + 9 <= s.len() {
            Option::Some((FieldV::UInt(spec_u64_from_be_bytes(s.subrange(i + 1, i + 9))), i + 9))
        } else {
            Option::None
        }
    } else if s[i] == 3 {
        if i + 9 <= s.len() {
            let n = spec_u64_from_be_bytes(s.subrange(i + 1, i + 9)) as int;
            if i + 9 + n <= s.len() {
                Option::Some((FieldV::Bytes(s.subrange(i + 9, i + 9 + n)), i + 9 + n))
            } else {
                Option::None
            }
        } else {
            Option::None
        }
    } else {
        Option::None
    }
}

/// Decodes `n` consecutive fields starting at position `i`.
pub open spec fn spec_decode_fields(s: Seq<u8>, i: int, n: nat) -> Option<(Seq<FieldV>, int)>
    decreases n,
{
    if n == 0 {
        Option::Some((Seq::empty(), i))
    } else {
        match spec_decode_field(s, i) {
            Option::None => Option::None,
            Option::Some((f, j)) => match spec_decode_fields(s, j, (n - 1) as nat) {
                Option::None => Option::None,
                Option::Some((fs, k)) => Option::Some((seq![f] + fs, k)),
            },
        }
    }
}

/// The record encoded by `s`, if `s` is exactly one record encoding.
pub open spec fn spec_decode_record(s: Seq<u8>) -> Option<Seq<FieldV>> {
    if s.len() < 8 {
        Option::None
    } else {
        let n = spec_u64_from_be_bytes(s.subrange(0, 8)) as nat;
        match spec_decode_fields(s, 8, n) {
            Option::None => Option::None,
            Option::Some((fs, k)) => if k == s.len() {
                Option::Some(fs)
            } else {
                Option::None
            },
        }
    }
}

proof fn lemma_cast_i64_round(x: i64)
    ensures
        (x as u64) as i64 == x,
{
    assert((x as u64) as i64 == x) by (bit_vector);
}

/// Reading one field out of a stream that carries its encoding at the given
/// position yields that field and stops just past it.
pub proof fn lemma_decode_field_of_encoding(pre: Seq<u8>, f: FieldV, post: Seq<u8>)
    requires
        spec_field_wf(f),
    ensures
        spec_decode_field(pre + spec_field_bytes(f) + post, pre.len() as int) == Option::Some(
            (f, (pre.len() + spec_field_bytes(f).len()) as int),
        ),
{
    let s = pre + spec_field_bytes(f) + post;
    let i = pre.len() as int;
    let e = spec_field_bytes(f);
    assert(forall|k: int| 0 <= k < e.len() ==> s[i + k] == e[k]);
    match f {
        FieldV::Null => {
            assert(s[i] == 0);
        },
        FieldV::Int(x) => {
            assert(s[i] == 1);
            assert(s.subrange(i + 1, i + 9) =~= spec_u64_to_be_bytes(x as u64));
            crate::bytes::lemma_u64_be_bytes_round_trip(x as u64);
            lemma_cast_i64_round(x);
        },
        FieldV::UInt(x) => {
            assert(s[i] == 2);
            assert(s.subrange(i + 1, i + 9) =~= spec_u64_to_be_bytes(x));
            crate::bytes::lemma_u64_be_bytes_round_trip(x);
        },
        FieldV::Bytes(b) => {
            assert(s[i] == 3);
            assert(s.subrange(i + 1, i + 9) =~= spec_u64_to_be_bytes(b.len() as u64));
            crate::bytes::lemma_u64_be_bytes_round_trip(b.len() as u64);
            assert(s.subrange(i + 9, i + 9 + b.len()) =~= b);
        },
    }
}

/// Reading `fs.len()` fields out of a stream that carries their encodings at
/// the given position yields exactly `fs`.
pub proof fn lemma_decode_fields_of_encoding(pre: Seq<u8>, fs: Seq<FieldV>, post: Seq<u8>)
    requires
        spec_fields_wf(fs),
    ensures
        spec_decode_fields(pre + spec_fields_bytes(fs) + post, pre.len() as int, fs.len())
            == Option::Some((fs, (pre.len() + spec_fields_bytes(fs).len()) as int)),
    decreases fs.len(),
{
    if fs.len() == 0 {
        assert(spec_fields_bytes(fs) =~= Seq::<u8>::empty());
    } else {
        let f = fs.first();
        let rest = fs.drop_first();
        let e0 = spec_field_bytes(f);
        let erest = spec_fields_bytes(rest);
        assert(spec_fields_bytes(fs) == e0 + erest);
        let s = pre + spec_fields_bytes(fs) + post;
        assert(s =~= pre + e0 + (erest + post));
        lemma_decode_field_of_encoding(pre, f, erest + post);
        assert(spec_decode_field(s, pre.len() as int) == Option::Some((f, (pre.len() + e0.len()) as int)));
        assert(s =~= (pre + e0) + erest + post);
        assert(spec_fields_wf(rest));
        lemma_decode_fields_of_encoding(pre + e0, rest, post);
        assert(spec_decode_fields(s, (pre + e0).len() as int, rest.len()) == Option::Some(
            (rest, ((pre + e0).len() + erest.len()) as int)));
        assert(seq![f] + rest =~= fs);
        assert(pre.len() + e0.len() + erest.len() == pre.len() + spec_fields_bytes(fs).len());
    }
}

/// Decoding the encoding of a record yields the record: the round trip that
/// makes retrieve-old exact.
pub proof fn lemma_record_bytes_round_trip(r: Seq<FieldV>)
    requires
        spec_record_wf(r),
    ensures
        spec_decode_record(spec_record_bytes(r)) == Option::Some(r),
{
    let s = spec_record_bytes(r);
    let cnt = spec_u64_to_be_bytes(r.len() as u64);
    assert(s.subrange(0, 8) =~= cnt);
    crate::bytes::lemma_u64_be_bytes_round_trip(r.len() as u64);
    assert(spec_u64_from_be_bytes(s.subrange(0, 8)) == r.len() as u64);
    assert(s =~= cnt + spec_fields_bytes(r) + Seq::<u8>::empty());
    lemma_decode_fields_of_encoding(cnt, r, Seq::empty());
    assert(spec_decode_fields(s, 8, r.len()) == Option::Some((r, (8 + spec_fields_bytes(r).len()) as int)));
    assert(s.len() == 8 + spec_fields_bytes(r).len());
}

/// Decodes the field at position `i` of `bytes`.
fn decode_field_at(bytes: &Vec<u8>, i: usize) -> (r: Option<(Field, usize)>)
    requires
        i <= bytes@.len(),
    ensures
        match r {
            Option::Some(p) => spec_decode_field(bytes@, i as int) == Option::Some(
                (p.0@, p.1 as int),
            ) && i < p.1 <= bytes@.len(),
            Option::None => spec_decode_field(bytes@, i as int) is None,
        },
{
    let n = bytes.len();
    if i >= n {
        return Option::None;
    }
    let tag = bytes[i];
    if tag == 0 {
        Option::Some((Field::Null, i + 1))
    } else if tag == 1 {
        if n - i >= 9 {
            let x = u64_from_be_bytes(bytes, i + 1);
            Option::Some((Field::Int(#[verifier::truncate] (x as i64)), i + 9))
        } else {
            Option::None
        }
    } else if tag == 2 {
        if n - i >= 9 {
            let x = u64_from_be_bytes(bytes, i + 1);
            Option::Some((Field::UInt(x), i + 9))
        } else {
            Option::None
        }
    } else if tag == 3 {
        if n - i >= 9 {
            let len64 = u64_from_be_bytes(bytes, i + 1);
            if len64 <= (n - i - 9) as u64 {
                let len = len64 as usize;
                let mut payload: Vec<u8> = Vec::new();
                let mut j: usize = 0;
                while j < len
                    invariant
                        j <= len,
                        i + 9 + len <= n,
                        n == bytes@.len(),
                        payload@ == bytes@.subrange(i + 9, i + 9 + j),
                    decreases len - j,
                {
                    payload.push(bytes[i + 9 + j]);
                    assert(bytes@.subrange(i + 9, i + 9 + j + 1) =~= bytes@.subrange(i + 9, i + 9
                        + j).push(bytes@[i + 9 + j]));
                    j += 1;
                }
                assert(payload@ =~= bytes@.subrange(i + 9, i + 9 + len64 as int));
                Option::Some((Field::Bytes(payload), i + 9 + len))
            } else {
                Option::None
            }
        } else {
            Option::None
        }
    } else {
        Option::None
    }
}

/// Decodes `bytes` as exactly one record encoding; `None` on anything
/// malformed, truncated, or carrying trailing bytes.
pub fn decode_record(bytes: &Vec<u8>) -> (r: Option<Record>)
    ensures
        match r {
            Option::Some(rec) => spec_decode_record(bytes@) == Option::Some(rec@),
            Option::None => spec_decode_record(bytes@) is None,
        },
{
    let n = bytes.len();
    if n < 8 {
        return Option::None;
    }
    let count64 = u64_from_be_bytes(bytes, 0);
    let ghost total: nat = count64 as nat;
    let mut values: Vec<Field> = Vec::new();
    let mut pos: usize = 8;
    let mut done: u64 = 0;
    proof {
        assert forall|t0: Seq<FieldV>| Seq::<FieldV>::empty() + t0 == t0 by {
            assert(Seq::<FieldV>::empty() + t0 =~= t0);
        }
        assert(values@.map_values(|f: Field| f@) =~= Seq::<FieldV>::empty());
    }
    while done < count64
        invariant
            done <= count64,
            total == count64 as nat,
            n == bytes@.len(),
            8 <= n,
            count64 == spec_u64_from_be_bytes(bytes@.subrange(0, 8)),
            8 <= pos <= bytes@.len(),
            spec_decode_fields(bytes@, 8, total) == (match spec_decode_fields(bytes@, pos as int, (
            total - done) as nat) {
                Option::None => Option::None::<(Seq<FieldV>, int)>,
                Option::Some(t) => Option::Some(
                    (values@.map_values(|f: Field| f@) + t.0, t.1),
                ),
            }),
        decreases count64 - done,
    {
        let step = decode_field_at(bytes, pos);
        match step {
            Option::None => {
                proof {
                    let rem = (total - done) as nat;
                    assert(rem > 0);
                    assert(spec_decode_fields(bytes@, pos as int, rem) is None);
                    assert(spec_decode_fields(bytes@, 8, total) is None);
                }
                return Option::None;
            },
            Option::Some((f, next)) => {
                let ghost before = values@.map_values(|q: Field| q@);
                let ghost fv = f@;
                proof {
                    assert(spec_decode_field(bytes@, pos as int) == Option::Some(
                        (fv, next as int)));
                    assert forall|t0: Seq<FieldV>| before + (seq![fv] + t0) == (before + seq![fv])
                        + t0 by {
                        assert(before + (seq![fv] + t0) =~= (before + seq![fv]) + t0);
                    }
                }
                values.push(f);
                pos = next;
                done = done + 1;
                proof {
                    assert(values@.map_values(|q: Field| q@) =~= before + seq![fv]);
                }
            },
        }
    }
    proof {
        assert((total - done) as nat == 0nat);
        let vals = values@.map_values(|f: Field| f@);
        assert(vals + Seq::<FieldV>::empty() =~= vals);
        assert(spec_decode_fields(bytes@, 8, total) == Option::Some((vals, pos as int)));
    }
    if pos != n {
        return Option::None;
    }
    let rec = Record { values };
    Option::Some(rec)
}

} // verus!
