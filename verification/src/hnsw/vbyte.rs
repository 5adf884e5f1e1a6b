//! Variable-byte integer coding: seven payload bits per byte, the high
//! bit set on every byte but the last. Adjacency lists are stored as a
//! VByte count followed by VByte gaps between consecutive sorted ids.

use vstd::prelude::*;

verus! {

/// VByte encoding of a non-negative value.
pub open spec fn spec_vbyte(v: int) -> Seq<u8>
    recommends
        0 <= v,
    decreases v,
{
    if v < 128 {
        seq![v as u8]
    } else {
        seq![(v % 128 + 128) as u8] + spec_vbyte(v / 128)
    }
}

/// 128 raised to `f`, the exclusive upper bound of values readable in
/// `f` bytes.
pub open spec fn pow128(f: nat) -> int
    decreases f,
{
    if f == 0 {
        1
    } else {
        128 * pow128((f - 1) as nat)
    }
}

/// Reads one VByte value starting at `pos`, following at most `fuel`
/// bytes. Returns the value and the position after it, or `None` when
/// the bytes end or the continuation chain exceeds `fuel`.
pub open spec fn spec_vbyte_read(bytes: Seq<u8>, pos: int, fuel: nat) -> Option<(int, int)>
    decreases fuel,
{
    if fuel == 0 || pos < 0 || pos >= bytes.len() {
        None
    } else {
        let b = bytes[pos];
        if b < 128 {
            Some((b as int, pos + 1))
        } else {
            match spec_vbyte_read(bytes, pos + 1, (fuel - 1) as nat) {
                Option::None => None,
                Option::Some((v, p)) => Some(((b - 128) + 128 * v, p)),
            }
        }
    }
}

/// A value read with `fuel` bytes of budget is below `pow128(fuel)`,
/// and the position advances but stays within the buffer.
pub proof fn lemma_vbyte_read_bounds(bytes: Seq<u8>, pos: int, fuel: nat)
    ensures
        spec_vbyte_read(bytes, pos, fuel) matches Some((v, p)) ==> 0 <= v < pow128(fuel) && pos < p
            <= bytes.len(),
    decreases fuel,
{
    if fuel > 0 && 0 <= pos < bytes.len() {
        let b = bytes[pos];
        if b >= 128 {
            lemma_vbyte_read_bounds(bytes, pos + 1, (fuel - 1) as nat);
            match spec_vbyte_read(bytes, pos + 1, (fuel - 1) as nat) {
                Option::Some((v, p)) => {
                    assert((b - 128) + 128 * v < 128 * pow128((fuel - 1) as nat))
                        by (nonlinear_arith)
                        requires
                            b - 128 < 128,
                            0 <= v < pow128((fuel - 1) as nat),
                            pow128((fuel - 1) as nat) >= 1,
                    ;
                    assert(0 <= 128 * v) by (nonlinear_arith)
                        requires
                            v >= 0,
                    ;
                },
                Option::None => {},
            }
        } else {
            assert(pow128(fuel) >= 128) by {
                lemma_pow128_monotone(1, fuel);
            }
        }
    }
}

/// The values of `pow128` up to five bytes.
pub proof fn lemma_pow128_values()
    ensures
        pow128(0) == 1,
        pow128(1) == 128,
        pow128(2) == 16384,
        pow128(3) == 2097152,
        pow128(4) == 268435456,
        pow128(5) == 0x8_0000_0000,
{
    assert(pow128(0) == 1);
    assert(pow128(1) == 128);
    assert(pow128(2) == 16384);
    assert(pow128(3) == 2097152);
    assert(pow128(4) == 268435456);
    assert(pow128(5) == 128 * pow128(4));
}

/// `pow128` grows with its argument.
pub proof fn lemma_pow128_monotone(a: nat, b: nat)
    requires
        a <= b,
    ensures
        pow128(a) <= pow128(b),
        1 <= pow128(a),
    decreases b,
{
    if b > 0 {
        if a == b {
            lemma_pow128_monotone((a - 1) as nat, (b - 1) as nat);
            assert(128 * pow128((b - 1) as nat) >= pow128((b - 1) as nat)) by (nonlinear_arith)
                requires
                    pow128((b - 1) as nat) >= 1,
            ;
        } else {
            lemma_pow128_monotone(a, (b - 1) as nat);
            assert(128 * pow128((b - 1) as nat) >= pow128((b - 1) as nat)) by (nonlinear_arith)
                requires
                    pow128((b - 1) as nat) >= 1,
            ;
        }
    }
}

/// The encoding of `v` takes at most `f` bytes whenever `v < pow128(f)`
/// (and at least one byte).
pub proof fn lemma_vbyte_len(v: int, f: nat)
    requires
        0 <= v < pow128(f),
        1 <= f,
    ensures
        1 <= spec_vbyte(v).len() <= f,
    decreases v,
{
    if v >= 128 {
        assert(f >= 2) by {
            if f == 1 {
                assert(pow128(1) == 128);
            }
        }
        assert(v / 128 < pow128((f - 1) as nat)) by (nonlinear_arith)
            requires
                v < pow128(f),
                pow128(f) == 128 * pow128((f - 1) as nat),
                v >= 0,
        ;
        lemma_vbyte_len(v / 128, (f - 1) as nat);
    }
}

/// Reading at `pos` from a buffer that carries the encoding of `v`
/// there yields `v` back and lands just past the encoding.
pub proof fn lemma_vbyte_read_encoding(bytes: Seq<u8>, pos: int, v: int, fuel: nat)
    requires
        0 <= v,
        spec_vbyte(v).len() <= fuel,
        0 <= pos,
        pos + spec_vbyte(v).len() <= bytes.len(),
        bytes.subrange(pos, pos + spec_vbyte(v).len()) == spec_vbyte(v),
    ensures
        spec_vbyte_read(bytes, pos, fuel) == Some((v, pos + spec_vbyte(v).len())),
    decreases v,
{
    let enc = spec_vbyte(v);
    assert(bytes[pos] == enc[0]);
    if v < 128 {
        assert(enc[0] == v as u8);
    } else {
        let rest = spec_vbyte(v / 128);
        assert(enc[0] == (v % 128 + 128) as u8);
        assert(bytes.subrange(pos + 1, pos + 1 + rest.len()) =~= rest) by {
            assert forall|k: int| 0 <= k < rest.len() implies bytes.subrange(
                pos + 1,
                pos + 1 + rest.len(),
            )[k] == rest[k] by {
                assert(bytes[pos + 1 + k] == enc[1 + k]);
                assert(enc[1 + k] == rest[k]);
            }
        }
        lemma_vbyte_read_encoding(bytes, pos + 1, v / 128, (fuel - 1) as nat);
        let b = bytes[pos];
        assert(b == (v % 128 + 128) as u8);
        assert((b - 128) + 128 * (v / 128) == v);
    }
}

/// Reads one VByte value from `bytes` starting at `pos`, following at
/// most `fuel` continuation bytes.
pub fn vbyte_read(bytes: &[u8], pos: usize, fuel: u32) -> (r: Option<(u64, usize)>)
    requires
        pos <= bytes@.len(),
        fuel <= 5,
    ensures
        r is None <==> spec_vbyte_read(bytes@, pos as int, fuel as nat) is None,
        r matches Some((v, p)) ==> spec_vbyte_read(bytes@, pos as int, fuel as nat) == Some(
            (v as int, p as int),
        ) && v < 0x8_0000_0000u64 && pos < p <= bytes@.len(),
    decreases fuel,
{
    if fuel == 0 || pos >= bytes.len() {
        None
    } else {
        let b = bytes[pos];
        if b < 128 {
            proof {
                lemma_pow128_values();
                lemma_vbyte_read_bounds(bytes@, pos as int, fuel as nat);
                lemma_pow128_monotone(fuel as nat, 5);
            }
            Some((b as u64, pos + 1))
        } else {
            match vbyte_read(bytes, pos + 1, fuel - 1) {
                Option::None => None,
                Option::Some((v, p)) => {
                    proof {
                        lemma_pow128_values();
                        lemma_vbyte_read_bounds(bytes@, pos as int, fuel as nat);
                        lemma_vbyte_read_bounds(bytes@, pos + 1, (fuel - 1) as nat);
                        lemma_pow128_monotone((fuel - 1) as nat, 4);
                        lemma_pow128_monotone(fuel as nat, 5);
                        assert(128 * (v as int) <= 128 * (pow128(4) - 1)) by (nonlinear_arith)
                            requires
                                0 <= v as int <= pow128(4) - 1,
                        ;
                    }
                    Some((((b - 128) as u64) + 128 * v, p))
                },
            }
        }
    }
}

/// Appends the VByte encoding of `v` to `out`.
pub fn vbyte_write(out: &mut Vec<u8>, v: u64)
    requires
        v < 0x8_0000_0000u64,
    ensures
        final(out)@ == old(out)@ + spec_vbyte(v as int),
{
    let mut cur: u64 = v;
    while cur >= 128
        invariant
            old(out)@ + spec_vbyte(v as int) == out@ + spec_vbyte(cur as int),
            cur <= v,
        decreases cur,
    {
        let byte: u8 = ((cur % 128) + 128) as u8;
        proof {
            assert(spec_vbyte(cur as int) == seq![(cur as int % 128 + 128) as u8] + spec_vbyte(
                cur as int / 128,
            ));
            assert(out@.push(byte) + spec_vbyte(cur as int / 128) =~= out@ + spec_vbyte(
                cur as int,
            ));
        }
        out.push(byte);
        cur = cur / 128;
    }
    proof {
        assert(spec_vbyte(cur as int) =~= seq![cur as u8]);
        assert(out@.push(cur as u8) =~= out@ + spec_vbyte(cur as int));
    }
    out.push(cur as u8);
}

} // verus!

verus! {

/// A sequence is strictly increasing: sorted with no duplicates.
pub open spec fn strictly_increasing(s: Seq<u32>) -> bool {
    forall|i: int, j: int| 0 <= i < j < s.len() ==> s[i] < s[j]
}

/// Inserts `x` into a strictly increasing sequence, keeping it strictly
/// increasing; inserting a present value changes nothing.
pub open spec fn insert_unique_spec(s: Seq<u32>, x: u32) -> Seq<u32>
    decreases s.len(),
{
    if s.len() == 0 {
        seq![x]
    } else if x > s.last() {
        s.push(x)
    } else if x == s.last() {
        s
    } else {
        insert_unique_spec(s.drop_last(), x).push(s.last())
    }
}

/// The strictly increasing sequence holding exactly the values of `s`:
/// `s` sorted ascending with duplicates removed.
pub open spec fn sort_unique(s: Seq<u32>) -> Seq<u32>
    decreases s.len(),
{
    if s.len() == 0 {
        Seq::empty()
    } else {
        insert_unique_spec(sort_unique(s.drop_last()), s.last())
    }
}

/// A pushed sequence holds exactly the old values and the pushed one.
proof fn lemma_push_contains(s: Seq<u32>, v: u32, y: u32)
    ensures
        s.push(v).contains(y) <==> (s.contains(y) || y == v),
{
    if s.contains(y) {
        let i = choose|i: int| 0 <= i < s.len() && s[i] == y;
        assert(s.push(v)[i] == y);
    }
    if y == v {
        assert(s.push(v)[s.len() as int] == y);
    }
    if s.push(v).contains(y) {
        let i = choose|i: int| 0 <= i < s.push(v).len() && s.push(v)[i] == y;
        if i < s.len() {
            assert(s[i] == y);
        }
    }
}

/// A nonempty sequence holds exactly its last value and the values
/// before it.
proof fn lemma_unlast_contains(s: Seq<u32>, y: u32)
    requires
        s.len() > 0,
    ensures
        s.contains(y) <==> (s.drop_last().contains(y) || y == s.last()),
{
    let d = s.drop_last();
    if d.contains(y) {
        let i = choose|i: int| 0 <= i < d.len() && d[i] == y;
        assert(s[i] == y);
    }
    if y == s.last() {
        assert(s[s.len() - 1] == y);
    }
    if s.contains(y) {
        let i = choose|i: int| 0 <= i < s.len() && s[i] == y;
        if i < s.len() - 1 {
            assert(d[i] == y);
        }
    }
}

/// Inserting preserves strict order and adds exactly `x` to the values.
pub proof fn lemma_insert_unique_spec(s: Seq<u32>, x: u32)
    requires
        strictly_increasing(s),
    ensures
        strictly_increasing(insert_unique_spec(s, x)),
        forall|y: u32| insert_unique_spec(s, x).contains(y) <==> (s.contains(y) || y == x),
        s.len() <= insert_unique_spec(s, x).len() <= s.len() + 1,
    decreases s.len(),
{
    let r = insert_unique_spec(s, x);
    if s.len() == 0 {
        assert forall|y: u32| r.contains(y) <==> (s.contains(y) || y == x) by {
            if y == x {
                assert(r[0] == x);
                assert(r.contains(y));
            }
            if r.contains(y) {
                let i = choose|i: int| 0 <= i < r.len() && r[i] == y;
                assert(i == 0);
            }
            if s.contains(y) {
                let i = choose|i: int| 0 <= i < s.len() && s[i] == y;
            }
        }
    } else if x > s.last() {
        assert forall|y: u32| r.contains(y) <==> (s.contains(y) || y == x) by {
            lemma_push_contains(s, x, y);
        }
    } else if x == s.last() {
        assert forall|y: u32| r.contains(y) <==> (s.contains(y) || y == x) by {
            if y == x {
                assert(s[s.len() - 1] == x);
            }
        }
    } else {
        let d = s.drop_last();
        assert(strictly_increasing(d)) by {
            assert forall|i: int, j: int| 0 <= i < j < d.len() implies d[i] < d[j] by {
                assert(s[i] == d[i] && s[j] == d[j]);
            }
        }
        lemma_insert_unique_spec(d, x);
        let rd = insert_unique_spec(d, x);
        // r == rd.push(s.last())
        assert forall|i: int, j: int| 0 <= i < j < r.len() implies r[i] < r[j] by {
            if j < rd.len() {
            } else {
                // r[j] == s.last(); r[i] is in rd, so r[i] is a value of d or x,
                // all below s.last()
                assert(rd.contains(rd[i]));
                if rd[i] == x {
                } else {
                    assert(d.contains(rd[i]));
                    let k = choose|k: int| 0 <= k < d.len() && d[k] == rd[i];
                    assert(s[k] == d[k]);
                    assert(s[k] < s.last());
                }
            }
        }
        assert forall|y: u32| r.contains(y) <==> (s.contains(y) || y == x) by {
            lemma_push_contains(rd, s.last(), y);
            lemma_unlast_contains(s, y);
            assert(r.contains(y) <==> (rd.contains(y) || y == s.last()));
            assert(rd.contains(y) <==> (d.contains(y) || y == x));
            assert(s.contains(y) <==> (d.contains(y) || y == s.last()));
        }
    }
}

/// What `sort_unique` yields: strictly increasing, exactly the values
/// of the input, never longer than the input.
pub proof fn lemma_sort_unique_props(s: Seq<u32>)
    ensures
        strictly_increasing(sort_unique(s)),
        forall|y: u32| sort_unique(s).contains(y) <==> s.contains(y),
        sort_unique(s).len() <= s.len(),
    decreases s.len(),
{
    if s.len() == 0 {
        assert forall|y: u32| sort_unique(s).contains(y) <==> s.contains(y) by {
            if s.contains(y) {
                let i = choose|i: int| 0 <= i < s.len() && s[i] == y;
            }
            if sort_unique(s).contains(y) {
                let i = choose|i: int| 0 <= i < sort_unique(s).len() && sort_unique(s)[i] == y;
            }
        }
    } else {
        let d = s.drop_last();
        lemma_sort_unique_props(d);
        lemma_insert_unique_spec(sort_unique(d), s.last());
        assert forall|y: u32| sort_unique(s).contains(y) <==> s.contains(y) by {
            lemma_unlast_contains(s, y);
            assert(sort_unique(s).contains(y) <==> (sort_unique(d).contains(y) || y == s.last()));
            assert(sort_unique(d).contains(y) <==> d.contains(y));
            assert(s.contains(y) <==> (d.contains(y) || y == s.last()));
        }
    }
}

/// Inserts `x` into `v` at its sorted position; a present value leaves
/// `v` unchanged.
pub fn insert_unique(v: &mut Vec<u32>, x: u32)
    ensures
        final(v)@ == insert_unique_spec(old(v)@, x),
{
    let ghost s = v@;
    proof {
        assert(s.subrange(0, s.len() as int) =~= s);
        assert(s.subrange(s.len() as int, s.len() as int) =~= Seq::<u32>::empty());
        assert(insert_unique_spec(s.subrange(0, s.len() as int), x) + s.subrange(
            s.len() as int,
            s.len() as int,
        ) =~= insert_unique_spec(s, x));
    }
    let mut j: usize = v.len();
    while j > 0 && v[j - 1] > x
        invariant
            0 <= j <= v.len(),
            v@ == s,
            insert_unique_spec(s, x) == insert_unique_spec(s.subrange(0, j as int), x)
                + s.subrange(j as int, s.len() as int),
        decreases j,
    {
        proof {
            let pre = s.subrange(0, j as int);
            let pre1 = s.subrange(0, j - 1);
            assert(pre.last() == s[j - 1]);
            assert(pre.drop_last() =~= pre1);
            assert(insert_unique_spec(pre, x) == insert_unique_spec(pre1, x).push(s[j - 1]));
            assert(insert_unique_spec(pre1, x).push(s[j - 1]) + s.subrange(j as int, s.len() as int)
                =~= insert_unique_spec(pre1, x) + s.subrange(j - 1, s.len() as int));
        }
        j = j - 1;
    }
    if j > 0 && v[j - 1] == x {
        proof {
            let pre = s.subrange(0, j as int);
            assert(pre.last() == s[j - 1]);
            assert(insert_unique_spec(pre, x) == pre);
            assert(pre + s.subrange(j as int, s.len() as int) =~= s);
        }
    } else {
        proof {
            let pre = s.subrange(0, j as int);
            if j > 0 {
                assert(pre.last() == s[j - 1]);
                assert(insert_unique_spec(pre, x) == pre.push(x));
            } else {
                assert(pre =~= Seq::<u32>::empty());
                assert(insert_unique_spec(pre, x) =~= pre.push(x));
            }
            assert(s.insert(j as int, x) =~= pre.push(x) + s.subrange(j as int, s.len() as int));
        }
        v.insert(j, x);
    }
}

} // verus!

verus! {

/// Encoding of the gaps of `xs` from index `i` on, the previous value
/// being `prev`.
pub open spec fn spec_encode_gaps(xs: Seq<u32>, i: int, prev: int) -> Seq<u8>
    decreases xs.len() - i,
{
    if i < 0 || i >= xs.len() {
        Seq::empty()
    } else {
        spec_vbyte(xs[i] - prev) + spec_encode_gaps(xs, i + 1, xs[i] as int)
    }
}

/// Encoding of a neighbor list: VByte count, then VByte gaps with the
/// previous value starting at zero.
pub open spec fn spec_encode_list(xs: Seq<u32>) -> Seq<u8> {
    spec_vbyte(xs.len() as int) + spec_encode_gaps(xs, 0, 0)
}

/// Decodes `cnt` gap entries starting at `pos`, accumulating from
/// `prev` with wrap-around, stopping early when the bytes end.
pub open spec fn spec_decode_entries(bytes: Seq<u8>, pos: int, cnt: int, prev: u32) -> Seq<u32>
    decreases cnt,
{
    if cnt <= 0 {
        Seq::empty()
    } else {
        match spec_vbyte_read(bytes, pos, 5) {
            Option::None => Seq::empty(),
            Option::Some((g, p2)) => {
                let next = ((prev + g) % 0x1_0000_0000) as u32;
                seq![next] + spec_decode_entries(bytes, p2, cnt - 1, next)
            },
        }
    }
}

/// Decodes the neighbor list whose encoding starts at `pos`.
pub open spec fn spec_decode_list_at(bytes: Seq<u8>, pos: int) -> Seq<u32> {
    match spec_vbyte_read(bytes, pos, 5) {
        Option::None => Seq::empty(),
        Option::Some((cnt, p)) => spec_decode_entries(bytes, p, cnt, 0),
    }
}

/// Decodes the neighbor list at the start of `bytes`; bytes past the
/// encoded entries are ignored.
pub open spec fn spec_decode_list(bytes: Seq<u8>) -> Seq<u32> {
    spec_decode_list_at(bytes, 0)
}

proof fn lemma_decode_gaps_of_encoding(xs: Seq<u32>, i: int, bytes: Seq<u8>, pos: int, prev: u32)
    requires
        strictly_increasing(xs),
        0 <= i <= xs.len(),
        i < xs.len() ==> prev <= xs[i],
        0 <= pos,
        pos + spec_encode_gaps(xs, i, prev as int).len() <= bytes.len(),
        bytes.subrange(pos, pos + spec_encode_gaps(xs, i, prev as int).len()) == spec_encode_gaps(
            xs,
            i,
            prev as int,
        ),
    ensures
        spec_decode_entries(bytes, pos, xs.len() - i, prev) == xs.subrange(i, xs.len() as int),
    decreases xs.len() - i,
{
    let enc = spec_encode_gaps(xs, i, prev as int);
    if i == xs.len() {
        assert(spec_decode_entries(bytes, pos, 0, prev) =~= xs.subrange(i, xs.len() as int));
    } else {
        let g = xs[i] - prev;
        let ge = spec_vbyte(g);
        let rest = spec_encode_gaps(xs, i + 1, xs[i] as int);
        assert(enc == ge + rest);
        assert(ge.len() <= 5) by {
            assert(pow128(5) == 0x8_0000_0000) by {
                assert(pow128(0) == 1);
                assert(pow128(1) == 128);
                assert(pow128(2) == 16384);
                assert(pow128(3) == 2097152);
                assert(pow128(4) == 268435456);
            }
            lemma_vbyte_len(g, 5);
        }
        assert(bytes.subrange(pos, pos + ge.len()) =~= ge) by {
            assert forall|k: int| 0 <= k < ge.len() implies bytes.subrange(pos, pos + ge.len())[k]
                == ge[k] by {
                assert(bytes[pos + k] == enc[k]);
                assert(enc[k] == ge[k]);
            }
        }
        lemma_vbyte_read_encoding(bytes, pos, g, 5);
        let p2 = pos + ge.len();
        assert(spec_vbyte_read(bytes, pos, 5) == Some((g, p2)));
        let next = ((prev + g) % 0x1_0000_0000) as u32;
        assert(prev + g == xs[i]);
        assert(next == xs[i]);
        assert(bytes.subrange(p2, p2 + rest.len()) =~= rest) by {
            assert forall|k: int| 0 <= k < rest.len() implies bytes.subrange(
                p2,
                p2 + rest.len(),
            )[k] == rest[k] by {
                assert(bytes[p2 + k] == enc[ge.len() + k]);
                assert(enc[ge.len() + k] == rest[k]);
            }
        }
        assert(i + 1 < xs.len() ==> xs[i] <= xs[i + 1]);
        lemma_decode_gaps_of_encoding(xs, i + 1, bytes, p2, next);
        assert(spec_decode_entries(bytes, pos, xs.len() - i, prev) == seq![next]
            + spec_decode_entries(bytes, p2, xs.len() - i - 1, next));
        assert(seq![xs[i]] + xs.subrange(i + 1, xs.len() as int) =~= xs.subrange(
            i,
            xs.len() as int,
        ));
    }
}

/// Round trip: decoding an encoded strictly increasing list yields the
/// list back, whatever bytes follow the encoding.
pub proof fn lemma_decode_of_encode(xs: Seq<u32>, rest: Seq<u8>)
    requires
        strictly_increasing(xs),
        xs.len() < 0x8_0000_0000,
    ensures
        spec_decode_list(spec_encode_list(xs) + rest) == xs,
{
    let cnt = xs.len() as int;
    let ce = spec_vbyte(cnt);
    let gaps = spec_encode_gaps(xs, 0, 0);
    let bytes = spec_encode_list(xs) + rest;
    assert(pow128(5) == 0x8_0000_0000) by {
        assert(pow128(0) == 1);
        assert(pow128(1) == 128);
        assert(pow128(2) == 16384);
        assert(pow128(3) == 2097152);
        assert(pow128(4) == 268435456);
    }
    assert(ce.len() <= 5) by {
        lemma_vbyte_len(cnt, 5);
    }
    assert(bytes.subrange(0, ce.len() as int) =~= ce) by {
        assert forall|k: int| 0 <= k < ce.len() implies bytes.subrange(0, ce.len() as int)[k]
            == ce[k] by {
            assert(bytes[k] == spec_encode_list(xs)[k]);
        }
    }
    lemma_vbyte_read_encoding(bytes, 0, cnt, 5);
    let p = ce.len() as int;
    assert(bytes.subrange(p, p + gaps.len()) =~= gaps) by {
        assert forall|k: int| 0 <= k < gaps.len() implies bytes.subrange(p, p + gaps.len())[k]
            == gaps[k] by {
            assert(bytes[p + k] == spec_encode_list(xs)[p + k]);
            assert(spec_encode_list(xs)[p + k] == gaps[k]);
        }
    }
    lemma_decode_gaps_of_encoding(xs, 0, bytes, p, 0u32);
    assert(xs.subrange(0, xs.len() as int) =~= xs);
}

/// An encoded list is short: at most five bytes for the count and five
/// per entry.
pub proof fn lemma_encode_list_len(xs: Seq<u32>)
    requires
        strictly_increasing(xs),
        xs.len() < 0x8_0000_0000,
    ensures
        spec_encode_list(xs).len() <= 5 + 5 * xs.len(),
{
    lemma_pow128_values();
    lemma_vbyte_len(xs.len() as int, 5);
    lemma_encode_gaps_len(xs, 0, 0);
}

proof fn lemma_encode_gaps_len(xs: Seq<u32>, i: int, prev: int)
    requires
        0 <= i <= xs.len(),
        0 <= prev,
    ensures
        spec_encode_gaps(xs, i, prev).len() <= 5 * (xs.len() - i),
    decreases xs.len() - i,
{
    if i < xs.len() {
        lemma_pow128_values();
        let g = xs[i] - prev;
        if 0 <= g {
            assert(g < pow128(5));
            lemma_vbyte_len(g, 5);
        } else {
            assert(spec_vbyte(g).len() == 1);
        }
        lemma_encode_gaps_len(xs, i + 1, xs[i] as int);
    }
}

/// Sorts and deduplicates `ids`, then writes the count and the gaps as
/// VByte.
pub fn encode_list(ids: &[u32]) -> (r: Vec<u8>)
    requires
        ids@.len() < 0x8_0000_0000,
    ensures
        r@ == spec_encode_list(sort_unique(ids@)),
{
    let mut sorted: Vec<u32> = Vec::new();
    let mut i: usize = 0;
    while i < ids.len()
        invariant
            0 <= i <= ids@.len(),
            ids@.len() < 0x8_0000_0000,
            sorted@ == sort_unique(ids@.subrange(0, i as int)),
            sorted@.len() <= i,
        decreases ids@.len() - i,
    {
        proof {
            let pre = ids@.subrange(0, i + 1);
            assert(pre.drop_last() =~= ids@.subrange(0, i as int));
            assert(pre.last() == ids@[i as int]);
            lemma_sort_unique_props(ids@.subrange(0, i as int));
            lemma_insert_unique_spec(sort_unique(ids@.subrange(0, i as int)), ids@[i as int]);
        }
        insert_unique(&mut sorted, ids[i]);
        i = i + 1;
    }
    proof {
        assert(ids@.subrange(0, ids@.len() as int) =~= ids@);
        lemma_sort_unique_props(ids@);
    }
    let ghost xs = sorted@;
    let mut out: Vec<u8> = Vec::new();
    vbyte_write(&mut out, sorted.len() as u64);
    let mut prev: u32 = 0;
    let mut j: usize = 0;
    while j < sorted.len()
        invariant
            0 <= j <= xs.len(),
            sorted@ == xs,
            strictly_increasing(xs),
            prev == if j == 0 { 0u32 } else { xs[j - 1] },
            j < xs.len() ==> prev <= xs[j as int],
            out@ + spec_encode_gaps(xs, j as int, prev as int) == spec_encode_list(xs),
        decreases xs.len() - j,
    {
        let x = sorted[j];
        proof {
            if j > 0 {
                assert(xs[j - 1] < xs[j as int]);
            }
            assert(spec_encode_gaps(xs, j as int, prev as int) == spec_vbyte(x - prev)
                + spec_encode_gaps(xs, j + 1, x as int));
        }
        let gap: u32 = x - prev;
        proof {
            assert((out@ + spec_vbyte(gap as int)) + spec_encode_gaps(xs, j + 1, x as int) =~= out@
                + spec_encode_gaps(xs, j as int, prev as int));
        }
        vbyte_write(&mut out, gap as u64);
        prev = x;
        j = j + 1;
    }
    proof {
        assert(spec_encode_gaps(xs, xs.len() as int, prev as int) =~= Seq::<u8>::empty());
        assert(out@ + Seq::<u8>::empty() =~= out@);
    }
    out
}

/// Decodes a neighbor list: reads the count, then that many gaps,
/// tolerating bytes past the encoded entries and stopping early when
/// the bytes end.
pub fn decode_list(bytes: &[u8]) -> (r: Vec<u32>)
    ensures
        r@ == spec_decode_list(bytes@),
{
    decode_list_at(bytes, 0)
}

/// Decodes the neighbor list whose encoding starts at `pos`.
pub fn decode_list_at(bytes: &[u8], pos: usize) -> (r: Vec<u32>)
    requires
        pos <= bytes@.len(),
    ensures
        r@ == spec_decode_list_at(bytes@, pos as int),
{
    match vbyte_read(bytes, pos, 5) {
        Option::None => Vec::new(),
        Option::Some((cnt, start)) => {
            let mut out: Vec<u32> = Vec::new();
            let mut prev: u32 = 0;
            let mut p: usize = start;
            let mut j: u64 = 0;
            while j < cnt
                invariant
                    0 <= j <= cnt,
                    p <= bytes@.len(),
                    spec_decode_list_at(bytes@, pos as int) == out@ + spec_decode_entries(
                        bytes@,
                        p as int,
                        cnt - j,
                        prev,
                    ),
                decreases cnt - j,
            {
                match vbyte_read(bytes, p, 5) {
                    Option::None => {
                        proof {
                            assert(spec_decode_entries(bytes@, p as int, cnt - j, prev)
                                =~= Seq::<u32>::empty());
                            assert(out@ + Seq::<u32>::empty() =~= out@);
                        }
                        return out;
                    },
                    Option::Some((g, p2)) => {
                        let sum: u64 = (prev as u64) + g;
                        let next: u32 = (sum % 0x1_0000_0000u64) as u32;
                        proof {
                            assert(next == ((prev + g) % 0x1_0000_0000) as u32);
                            assert(spec_decode_entries(bytes@, p as int, cnt - j, prev) == seq![
                                next,
                            ] + spec_decode_entries(bytes@, p2 as int, cnt - j - 1, next));
                            assert(out@.push(next) + spec_decode_entries(
                                bytes@,
                                p2 as int,
                                cnt - j - 1,
                                next,
                            ) =~= out@ + spec_decode_entries(bytes@, p as int, cnt - j, prev));
                        }
                        out.push(next);
                        prev = next;
                        p = p2;
                        j = j + 1;
                    },
                }
            }
            proof {
                assert(spec_decode_entries(bytes@, p as int, 0, prev) =~= Seq::<u32>::empty());
                assert(out@ + Seq::<u32>::empty() =~= out@);
            }
            out
        },
    }
}

} // verus!

verus! {

/// Position just past `cnt` VByte entries starting at `pos`, or `None`
/// when the bytes end first.
pub open spec fn spec_skip_entries(bytes: Seq<u8>, pos: int, cnt: int) -> Option<int>
    decreases cnt,
{
    if cnt <= 0 {
        Some(pos)
    } else {
        match spec_vbyte_read(bytes, pos, 5) {
            Option::None => None,
            Option::Some((g, p2)) => spec_skip_entries(bytes, p2, cnt - 1),
        }
    }
}

/// Position where the list of layer `layer` starts, counting lists from
/// `pos`, or `None` when the bytes end first.
pub open spec fn spec_layer_start(bytes: Seq<u8>, layer: int, pos: int) -> Option<int>
    decreases layer,
{
    if layer <= 0 {
        Some(pos)
    } else {
        match spec_vbyte_read(bytes, pos, 5) {
            Option::None => None,
            Option::Some((cnt, p)) => match spec_skip_entries(bytes, p, cnt) {
                Option::None => None,
                Option::Some(p2) => spec_layer_start(bytes, layer - 1, p2),
            },
        }
    }
}

/// The list stored for layer `layer` in a block that concatenates one
/// encoded list per layer in ascending order.
pub open spec fn spec_decode_layer(bytes: Seq<u8>, layer: int) -> Seq<u32> {
    match spec_layer_start(bytes, layer, 0) {
        Option::None => Seq::empty(),
        Option::Some(p) => spec_decode_list_at(bytes, p),
    }
}

/// A block of one encoded list holds that list at layer zero.
pub proof fn lemma_decode_layer_zero(bytes: Seq<u8>)
    ensures
        spec_decode_layer(bytes, 0) == spec_decode_list(bytes),
{
}

/// Decodes the list of layer `layer`, skipping the lists of the layers
/// before it by their count prefixes.
pub fn decode_layer_list(bytes: &[u8], layer: u8) -> (r: Vec<u32>)
    ensures
        r@ == spec_decode_layer(bytes@, layer as int),
{
    let mut l: u8 = 0;
    let mut pos: usize = 0;
    while l < layer
        invariant
            0 <= l <= layer,
            pos <= bytes@.len(),
            spec_layer_start(bytes@, layer as int, 0) == spec_layer_start(
                bytes@,
                layer - l,
                pos as int,
            ),
        decreases layer - l,
    {
        match vbyte_read(bytes, pos, 5) {
            Option::None => {
                return Vec::new();
            },
            Option::Some((cnt, p)) => {
                let mut q: usize = p;
                let mut j: u64 = 0;
                while j < cnt
                    invariant
                        0 <= j <= cnt,
                        q <= bytes@.len(),
                        0 <= l < layer,
                        spec_layer_start(bytes@, layer as int, 0) == spec_layer_start(
                            bytes@,
                            layer - l,
                            pos as int,
                        ),
                        spec_vbyte_read(bytes@, pos as int, 5) == Some((cnt as int, p as int)),
                        spec_skip_entries(bytes@, p as int, cnt as int) == spec_skip_entries(
                            bytes@,
                            q as int,
                            cnt - j,
                        ),
                    decreases cnt - j,
                {
                    match vbyte_read(bytes, q, 5) {
                        Option::None => {
                            return Vec::new();
                        },
                        Option::Some((g, q2)) => {
                            q = q2;
                            j = j + 1;
                        },
                    }
                }
                pos = q;
                l = l + 1;
            },
        }
    }
    decode_list_at(bytes, pos)
}

} // verus!
