//! The framing of a block archive (CARv1): a length-prefixed header, then
//! length-prefixed blocks, each a content id followed by its bytes. The check
//! here accepts only archives whose framing is plain enough that the archive
//! reader cannot fail on it in any way but an error: a header of the canonical
//! form `{"roots": [...], "version": 1}`, unsigned varints of at most eight
//! bytes, content ids of version 0 or 1 with digests of at most 64 bytes, and
//! blocks that hold their whole content id and end inside the archive.

use vstd::prelude::*;

verus! {

/// `128` to the power `n`.
pub open spec fn pow128(n: nat) -> int
    decreases n,
{
    if n == 0 {
        1
    } else {
        128 * pow128((n - 1) as nat)
    }
}

/// Index of the last byte of the varint at the start of `s`, searching from
/// `j`: the first byte below 128 among the first eight.
pub open spec fn varint_end(s: Seq<u8>, j: int) -> Option<int>
    decreases 8 - j,
{
    if j < 0 || j >= 8 || j >= s.len() {
        None
    } else if s[j] < 128 {
        Some(j)
    } else {
        varint_end(s, j + 1)
    }
}

/// The value of the first `n` bytes of `s` read as varint digits, least
/// significant first.
pub open spec fn varint_value(s: Seq<u8>, n: int) -> int
    decreases n,
{
    if n <= 0 {
        0
    } else {
        varint_value(s, n - 1) + ((s[n - 1] % 128) as int) * pow128((n - 1) as nat)
    }
}

/// The unsigned varint at the start of `s`: its value and its length.
pub open spec fn varint(s: Seq<u8>) -> Option<(int, int)> {
    match varint_end(s, 0) {
        Some(e) => Some((varint_value(s, e + 1), e + 1)),
        None => None,
    }
}

/// The length of the content id at the start of `s`: version 0 (the bytes
/// `0x12 0x20` as varints, then a 32-byte digest), or version 1 with a codec,
/// a hash code and a digest of at most 64 bytes.
pub open spec fn cid_len(s: Seq<u8>) -> Option<int> {
    match varint(s) {
        None => None,
        Some((a, al)) => match varint(s.skip(al)) {
            None => None,
            Some((b, bl)) => if a == 0x12 && b == 0x20 {
                Some(al + bl + 32)
            } else if a == 1 {
                let t = s.skip(al + bl);
                match varint(t) {
                    None => None,
                    Some((_, cl)) => match varint(t.skip(cl)) {
                        None => None,
                        Some((size, sl)) => if size <= 64 {
                            Some(al + bl + cl + sl + size)
                        } else {
                            None
                        },
                    },
                }
            } else {
                None
            },
        },
    }
}

/// The largest block length the reader takes.
pub open spec fn max_block_len() -> int {
    1073741824
}

/// The length of the block at the start of `s`, prefix included: a length
/// between 1 and the maximum, a content id no longer than that, and all of it
/// inside `s`.
pub open spec fn block_len(s: Seq<u8>) -> Option<int> {
    match varint(s) {
        None => None,
        Some((v, vl)) => if 1 <= v <= max_block_len() && vl + v <= s.len() {
            match cid_len(s.skip(vl)) {
                Some(c) => if c <= v {
                    Some(vl + v)
                } else {
                    None
                },
                None => None,
            }
        } else {
            None
        },
    }
}

/// `s` is a sequence of whole blocks.
pub open spec fn blocks_ok(s: Seq<u8>) -> bool
    decreases s.len(),
{
    if s.len() == 0 {
        true
    } else {
        match block_len(s) {
            Some(k) => 0 < k <= s.len() && blocks_ok(s.skip(k)),
            None => false,
        }
    }
}

/// The bytes `map(2) "roots"`.
pub open spec fn roots_key() -> Seq<u8> {
    seq![0xa2u8, 0x65u8, 0x72u8, 0x6fu8, 0x6fu8, 0x74u8, 0x73u8]
}

/// The bytes `"version" 1`.
pub open spec fn version_one() -> Seq<u8> {
    seq![0x67u8, 0x76u8, 0x65u8, 0x72u8, 0x73u8, 0x69u8, 0x6fu8, 0x6eu8, 0x01u8]
}

/// The length of one root at the start of `s`: tag 42 around a byte string
/// whose length is given in its head or in the byte after it.
pub open spec fn root_len(s: Seq<u8>) -> Option<int> {
    if s.len() >= 3 && s[0] == 0xd8 && s[1] == 0x2a {
        if 0x40 <= s[2] <= 0x57 {
            Some(3 + (s[2] - 0x40))
        } else if s[2] == 0x58 && s.len() >= 4 {
            Some(4 + s[3])
        } else {
            None
        }
    } else {
        None
    }
}

/// Where the first `n` roots of `s` end.
pub open spec fn roots_end(s: Seq<u8>, n: int) -> Option<int>
    decreases n,
{
    if n <= 0 {
        Some(0)
    } else {
        match roots_end(s, n - 1) {
            Some(p) => if p <= s.len() {
                match root_len(s.skip(p)) {
                    Some(k) => Some(p + k),
                    None => None,
                }
            } else {
                None
            },
            None => None,
        }
    }
}

/// The header is `{"roots": [...], "version": 1}` in canonical form, with at
/// most 23 roots.
pub open spec fn header_ok(h: Seq<u8>) -> bool {
    &&& h.len() >= 8
    &&& h.take(7) == roots_key()
    &&& 0x80 <= h[7] <= 0x97
    &&& match roots_end(h.skip(8), h[7] - 0x80) {
        Some(p) => p <= h.len() - 8 && h.skip(8 + p) == version_one(),
        None => false,
    }
}

/// The archive's framing is plain: a header of the canonical version 1 form,
/// then whole blocks up to its end.
pub open spec fn car_framing_ok(a: Seq<u8>) -> bool {
    match varint(a) {
        Some((l, vl)) => vl + l <= a.len() && header_ok(a.subrange(vl, vl + l)) && blocks_ok(a.skip(vl + l)),
        None => false,
    }
}

/// The powers of 128 up to the eighth, the largest a varint of eight bytes needs.
proof fn lemma_pow128_bound(j: nat)
    requires
        j <= 8,
    ensures
        1 <= pow128(j) <= 72057594037927936,
        pow128(j + 1) == 128 * pow128(j),
{
    assert(pow128(0) == 1);
    assert(pow128(1) == 128);
    assert(pow128(2) == 16384);
    assert(pow128(3) == 2097152);
    assert(pow128(4) == 268435456);
    assert(pow128(5) == 34359738368);
    assert(pow128(6) == 4398046511104);
    assert(pow128(7) == 562949953421312);
    assert(pow128(8) == 72057594037927936);
    assert(pow128(j + 1) == 128 * pow128(j));
}

/// The varint at `start`: its value and its length.
fn read_varint(s: &[u8], start: usize) -> (r: Option<(u64, usize)>)
    requires
        start <= s@.len(),
    ensures
        match r {
            Some((v, l)) => varint(s@.skip(start as int)) == Some((v as int, l as int)) && 1 <= l <= 8
                && start + l <= s@.len(),
            None => varint(s@.skip(start as int)) is None,
        },
{
    let ghost x = s@.skip(start as int);
    let mut acc: u64 = 0;
    let mut mult: u64 = 1;
    let mut j: usize = 0;
    while j < 8 && j < s.len() - start
        invariant
            start <= s@.len(),
            x == s@.skip(start as int),
            j <= 8,
            varint_end(x, 0) == varint_end(x, j as int),
            acc as int == varint_value(x, j as int),
            mult as int == pow128(j as nat),
            acc < mult,
        decreases 8 - j,
    {
        let b = s[start + j];
        assert(x[j as int] == b);
        let d = (b % 128) as u64;
        proof {
            lemma_pow128_bound(j as nat);
            lemma_pow128_bound((j + 1) as nat);
        }
        assert(acc + d * mult < mult * 128) by (nonlinear_arith)
            requires
                acc < mult,
                d <= 127,
        ;
        let next = acc + d * mult;
        if b < 128 {
            return Some((next, j + 1));
        }
        acc = next;
        mult = mult * 128;
        j += 1;
    }
    None
}

/// The length of the content id at `start`.
fn cid_length(s: &[u8], start: usize) -> (r: Option<usize>)
    requires
        start <= s@.len(),
    ensures
        match r {
            Some(c) => cid_len(s@.skip(start as int)) == Some(c as int),
            None => cid_len(s@.skip(start as int)) is None,
        },
{
    let ghost x = s@.skip(start as int);
    let _n = s.len();
    let (a, al) = match read_varint(s, start) {
        None => return None,
        Some(v) => v,
    };
    assert(start + al <= s@.len());
    assert(s@.skip((start + al) as int) =~= x.skip(al as int));
    let (b, bl) = match read_varint(s, start + al) {
        None => return None,
        Some(v) => v,
    };
    if a == 0x12 && b == 0x20 {
        return Some(al + bl + 32);
    }
    if a != 1 {
        return None;
    }
    assert(start + al + bl <= s@.len());
    let p = start + al + bl;
    assert(s@.skip(p as int) =~= x.skip((al + bl) as int));
    let (_, cl) = match read_varint(s, p) {
        None => return None,
        Some(v) => v,
    };
    assert(s@.skip((p + cl) as int) =~= x.skip((al + bl) as int).skip(cl as int));
    let (size, sl) = match read_varint(s, p + cl) {
        None => return None,
        Some(v) => v,
    };
    if size > 64 {
        return None;
    }
    Some(al + bl + cl + sl + size as usize)
}

/// The length of the block at `start`, prefix included.
fn block_length(s: &[u8], start: usize) -> (r: Option<usize>)
    requires
        start <= s@.len(),
    ensures
        match r {
            Some(k) => block_len(s@.skip(start as int)) == Some(k as int),
            None => block_len(s@.skip(start as int)) is None,
        },
{
    let ghost x = s@.skip(start as int);
    let (v, vl) = match read_varint(s, start) {
        None => return None,
        Some(r) => r,
    };
    if v < 1 || v > 1073741824 || v as usize > s.len() - start - vl {
        return None;
    }
    let v = v as usize;
    assert(s@.skip((start + vl) as int) =~= x.skip(vl as int));
    match cid_length(s, start + vl) {
        Some(c) => if c <= v {
            Some(vl + v)
        } else {
            None
        },
        None => None,
    }
}

/// Whether the bytes from `start` on are whole blocks.
fn check_blocks(s: &[u8], start: usize) -> (r: bool)
    requires
        start <= s@.len(),
    ensures
        r == blocks_ok(s@.skip(start as int)),
{
    let mut pos = start;
    while pos < s.len()
        invariant
            start <= pos <= s@.len(),
            blocks_ok(s@.skip(start as int)) == blocks_ok(s@.skip(pos as int)),
        decreases s@.len() - pos,
    {
        match block_length(s, pos) {
            None => return false,
            Some(k) => {
                assert(s@.skip(pos as int).skip(k as int) =~= s@.skip((pos + k) as int));
                pos = pos + k;
            },
        }
    }
    assert(s@.skip(pos as int).len() == 0);
    true
}

/// The length of the root at `start`.
fn root_length(h: &[u8], start: usize) -> (r: Option<usize>)
    requires
        start <= h@.len(),
    ensures
        match r {
            Some(k) => root_len(h@.skip(start as int)) == Some(k as int),
            None => root_len(h@.skip(start as int)) is None,
        },
{
    if h.len() - start < 3 || h[start] != 0xd8 || h[start + 1] != 0x2a {
        return None;
    }
    let t = h[start + 2];
    if 0x40 <= t && t <= 0x57 {
        Some(3 + (t - 0x40) as usize)
    } else if t == 0x58 && h.len() - start >= 4 {
        Some(4 + h[start + 3] as usize)
    } else {
        None
    }
}

/// Whether a header has the canonical version 1 form.
fn check_header(h: &[u8]) -> (r: bool)
    ensures
        r == header_ok(h@),
{
    if h.len() < 8 || h[0] != 0xa2 || h[1] != 0x65 || h[2] != 0x72 || h[3] != 0x6f || h[4] != 0x6f || h[5]
        != 0x74 || h[6] != 0x73 {
        proof {
            if h@.len() >= 8 {
                assert(roots_key()[0] == 0xa2 && roots_key()[1] == 0x65 && roots_key()[2] == 0x72);
                assert(roots_key()[3] == 0x6f && roots_key()[4] == 0x6f && roots_key()[5] == 0x74);
                assert(roots_key()[6] == 0x73);
                if h@.take(7) == roots_key() {
                    assert(h@.take(7)[0] == h@[0] && h@.take(7)[1] == h@[1] && h@.take(7)[2] == h@[2]);
                    assert(h@.take(7)[3] == h@[3] && h@.take(7)[4] == h@[4] && h@.take(7)[5] == h@[5]);
                    assert(h@.take(7)[6] == h@[6]);
                }
            }
        }
        return false;
    }
    assert(h@.take(7) =~= roots_key());
    let head = h[7];
    if head < 0x80 || head > 0x97 {
        return false;
    }
    let n = (head - 0x80) as usize;
    let ghost rs = h@.skip(8);
    let mut pos: usize = 8;
    let mut i: usize = 0;
    while i < n
        invariant
            8 <= pos <= h@.len(),
            i <= n,
            n == h@[7] - 0x80,
            rs == h@.skip(8),
            roots_end(rs, i as int) == Some((pos - 8) as int),
        decreases n - i,
    {
        assert(rs.skip(pos - 8) =~= h@.skip(pos as int));
        match root_length(h, pos) {
            None => {
                proof {
                    lemma_roots_end_none(rs, (i + 1) as int, n as int);
                }
                return false;
            },
            Some(k) => {
                if k > h.len() - pos {
                    assert(roots_end(rs, (i + 1) as int) == Some((pos - 8 + k) as int));
                    proof {
                        if i + 1 < n {
                            lemma_roots_end_none(rs, (i + 2) as int, n as int);
                        }
                    }
                    return false;
                }
                pos = pos + k;
            },
        }
        i += 1;
    }
    if h.len() - pos != 9 {
        proof {
            if h@.skip(pos as int) == version_one() {
                assert(version_one().len() == 9);
            }
        }
        return false;
    }
    let ok = h[pos] == 0x67 && h[pos + 1] == 0x76 && h[pos + 2] == 0x65 && h[pos + 3] == 0x72 && h[pos + 4]
        == 0x73 && h[pos + 5] == 0x69 && h[pos + 6] == 0x6f && h[pos + 7] == 0x6e && h[pos + 8] == 0x01;
    proof {
        let v = version_one();
        let t = h@.skip(pos as int);
        assert(v[0] == 0x67 && v[1] == 0x76 && v[2] == 0x65 && v[3] == 0x72 && v[4] == 0x73);
        assert(v[5] == 0x69 && v[6] == 0x6f && v[7] == 0x6e && v[8] == 0x01);
        if ok {
            assert(t =~= v);
        } else if t == v {
            assert(t[0] == h@[pos as int] && t[1] == h@[pos + 1] && t[2] == h@[pos + 2]);
            assert(t[3] == h@[pos + 3] && t[4] == h@[pos + 4] && t[5] == h@[pos + 5]);
            assert(t[6] == h@[pos + 6] && t[7] == h@[pos + 7] && t[8] == h@[pos + 8]);
        }
    }
    ok
}

/// Once the roots stop parsing, no later count of roots parses either.
proof fn lemma_roots_end_none(s: Seq<u8>, i: int, n: int)
    requires
        0 <= i <= n,
        roots_end(s, i) is None,
    ensures
        roots_end(s, n) is None,
    decreases n - i,
{
    if i < n {
        lemma_roots_end_none(s, i + 1, n);
    }
}

/// Whether the archive's framing is plain enough to hand to the reader.
pub fn check_car_framing(archive: &[u8]) -> (r: bool)
    ensures
        r == car_framing_ok(archive@),
{
    assert(archive@.skip(0) =~= archive@);
    let (l, vl) = match read_varint(archive, 0) {
        None => return false,
        Some(v) => v,
    };
    if l > (archive.len() - vl) as u64 {
        return false;
    }
    let end = vl + l as usize;
    let header = vstd::slice::slice_to_vec(&archive[vl..end]);
    assert(header@ =~= archive@.subrange(vl as int, end as int));
    check_header(header.as_slice()) && check_blocks(archive, end)
}

} // verus!
