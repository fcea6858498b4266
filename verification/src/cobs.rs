//! Consistent Overhead Byte Stuffing (COBS) framing.
//!
//! A frame is the COBS encoding of a packet followed by a single `0x00`
//! delimiter; the encoding itself never contains a zero byte.

use vstd::prelude::*;

verus! {

/// Most data bytes that one COBS block carries (its code byte is then `0xFF`).
pub const MAX_BLOCK: usize = 254;

/// Number of leading non-zero bytes of `s`: the index of its first zero byte,
/// or its length when it holds none.
pub open spec fn run_len(s: Seq<u8>) -> nat
    decreases s.len(),
{
    if s.len() == 0 || s[0] == 0 {
        0
    } else {
        1 + run_len(s.drop_first())
    }
}

/// Number of data bytes in the first block of the encoding of `s`.
pub open spec fn block_len(s: Seq<u8>) -> nat {
    if run_len(s) < 254 {
        run_len(s)
    } else {
        254
    }
}

/// `run_len` is bounded by the length, covers only non-zero bytes, and stops at a zero.
pub proof fn lemma_run_len(s: Seq<u8>)
    ensures
        run_len(s) <= s.len(),
        forall|j: int| 0 <= j < run_len(s) ==> s[j] != 0,
        run_len(s) < s.len() ==> s[run_len(s) as int] == 0,
    decreases s.len(),
{
    if s.len() != 0 && s[0] != 0 {
        lemma_run_len(s.drop_first());
        assert forall|j: int| 0 <= j < run_len(s) implies s[j] != 0 by {
            if j > 0 {
                assert(s[j] == s.drop_first()[j - 1]);
            }
        }
    }
}

/// A prefix of `c` non-zero bytes that ends the sequence or stops at a zero
/// is exactly the leading run.
pub proof fn lemma_run_len_exact(s: Seq<u8>, c: nat)
    requires
        c <= s.len(),
        forall|j: int| 0 <= j < c ==> s[j] != 0,
        c == s.len() || s[c as int] == 0,
    ensures
        run_len(s) == c,
{
    lemma_run_len(s);
    if run_len(s) < c {
        assert(s[run_len(s) as int] != 0);
    }
}

/// A prefix of `c` non-zero bytes lies inside the leading run.
pub proof fn lemma_run_len_at_least(s: Seq<u8>, c: nat)
    requires
        c <= s.len(),
        forall|j: int| 0 <= j < c ==> s[j] != 0,
    ensures
        run_len(s) >= c,
{
    lemma_run_len(s);
    if run_len(s) < c {
        assert(s[run_len(s) as int] != 0);
    }
}

/// The COBS encoding of `data`, without the frame delimiter.
pub open spec fn encode_body(data: Seq<u8>) -> Seq<u8>
    decreases data.len(),
{
    let n = block_len(data);
    proof {
        lemma_run_len(data);
    }
    let head = seq![(n + 1) as u8] + data.take(n as int);
    if n == 254 {
        if data.len() == 254 {
            head
        } else {
            head + encode_body(data.skip(254))
        }
    } else if n == data.len() {
        head
    } else {
        head + encode_body(data.skip(n + 1 as int))
    }
}

/// The frame that carries `data`: its encoding followed by the delimiter.
pub open spec fn encode_frame(data: Seq<u8>) -> Seq<u8> {
    encode_body(data).push(0u8)
}

/// The packet that a frame body (the bytes before its delimiter) carries,
/// or `None` when the body is not a well-formed COBS encoding.
pub open spec fn decode_body(e: Seq<u8>) -> Option<Seq<u8>>
    decreases e.len(),
{
    if e.len() == 0 {
        None
    } else {
        let c = e[0] as int;
        if c == 0 || c > e.len() {
            None
        } else if c == e.len() {
            Some(e.subrange(1, c))
        } else {
            match decode_body(e.skip(c)) {
                Some(r) => Some(
                    if c == 255 {
                        e.subrange(1, c) + r
                    } else {
                        e.subrange(1, c) + seq![0u8] + r
                    },
                ),
                None => None,
            }
        }
    }
}

/// What `decode` gives for the buffered bytes `buf`: the packet of the first
/// complete frame (empty when the frame is malformed) and the bytes after its
/// delimiter; with no delimiter in `buf`, an empty packet and `buf` itself.
pub open spec fn decode_spec(buf: Seq<u8>) -> (Seq<u8>, Seq<u8>) {
    let z = run_len(buf);
    if z == buf.len() {
        (Seq::empty(), buf)
    } else {
        (
            match decode_body(buf.take(z as int)) {
                Some(d) => d,
                None => Seq::empty(),
            },
            buf.skip(z + 1 as int),
        )
    }
}


/// No byte of an encoding is zero, and an encoding is never empty.
pub proof fn lemma_encode_body_no_zero(data: Seq<u8>)
    ensures
        encode_body(data).len() >= 1,
        forall|i: int| 0 <= i < encode_body(data).len() ==> encode_body(data)[i] != 0,
    decreases data.len(),
{
    lemma_run_len(data);
    let n = block_len(data);
    let head = seq![(n + 1) as u8] + data.take(n as int);
    assert forall|i: int| 0 <= i < head.len() implies head[i] != 0 by {
        if i > 0 {
            assert(head[i] == data[i - 1]);
        }
    }
    if n == 254 {
        if data.len() != 254 {
            lemma_encode_body_no_zero(data.skip(254));
            let t = encode_body(data.skip(254));
            assert forall|i: int| 0 <= i < (head + t).len() implies (head + t)[i] != 0 by {
                if i >= head.len() {
                    assert((head + t)[i] == t[i - head.len()]);
                }
            }
        }
    } else if n != data.len() {
        lemma_encode_body_no_zero(data.skip(n + 1 as int));
        let t = encode_body(data.skip(n + 1 as int));
        assert forall|i: int| 0 <= i < (head + t).len() implies (head + t)[i] != 0 by {
            if i >= head.len() {
                assert((head + t)[i] == t[i - head.len()]);
            }
        }
    }
}

/// Decoding an encoding gives back the data.
pub proof fn lemma_decode_encode_body(data: Seq<u8>)
    ensures
        decode_body(encode_body(data)) == Some(data),
    decreases data.len(),
{
    lemma_run_len(data);
    let n = block_len(data);
    let head = seq![(n + 1) as u8] + data.take(n as int);
    let e = encode_body(data);
    assert(head.subrange(1, n + 1 as int) =~= data.take(n as int));
    if n == 254 {
        if data.len() == 254 {
            assert(e == head);
            assert(data.take(254) =~= data);
        } else {
            let rest = data.skip(254);
            lemma_decode_encode_body(rest);
            let t = encode_body(rest);
            lemma_encode_body_no_zero(rest);
            assert(e == head + t);
            assert(e[0] == 255u8);
            assert(e.subrange(1, 255) =~= data.take(254));
            assert(e.skip(255) =~= t);
            assert(data.take(254) + rest =~= data);
        }
    } else if n == data.len() {
        assert(e == head);
        assert(data.take(n as int) =~= data);
        assert(e.subrange(1, n + 1 as int) =~= data);
    } else {
        let rest = data.skip(n + 1 as int);
        lemma_decode_encode_body(rest);
        let t = encode_body(rest);
        lemma_encode_body_no_zero(rest);
        assert(e == head + t);
        assert(e[0] == (n + 1) as u8);
        assert(e.subrange(1, n + 1 as int) =~= data.take(n as int));
        assert(e.skip(n + 1 as int) =~= t);
        assert(data.take(n as int) + seq![0u8] + rest =~= data);
    }
}

/// Law: a frame followed by further bytes decodes to the framed data, and
/// what remains is exactly the further bytes.
pub proof fn lemma_frame_roundtrip(data: Seq<u8>, more: Seq<u8>)
    ensures
        decode_spec(encode_frame(data) + more) == (data, more),
{
    let e = encode_body(data);
    let buf = encode_frame(data) + more;
    lemma_encode_body_no_zero(data);
    assert forall|j: int| 0 <= j < e.len() implies buf[j] != 0 by {
        assert(buf[j] == e[j]);
    }
    assert(buf[e.len() as int] == 0);
    lemma_run_len_exact(buf, e.len());
    assert(buf.take(e.len() as int) =~= e);
    assert(buf.skip(e.len() + 1 as int) =~= more);
    lemma_decode_encode_body(data);
}


/// Law: a frame is the standard COBS encoding of its data. Let `n` be the
/// length of the first block: the leading non-zero bytes of `data`, at most
/// 254 of them. The frame starts with the code byte `n + 1`, followed by those
/// `n` bytes unchanged and in order. If the block ends the data, the delimiter
/// follows. Otherwise the rest of the frame is the frame of the remaining
/// data: after a full block (code `0xFF`) the data continues right after the
/// block; after a shorter block, the code stands for the zero byte at index
/// `n`, which is skipped.
pub proof fn lemma_frame_first_block(data: Seq<u8>, n: nat)
    requires
        n <= 254,
        n <= data.len(),
        forall|j: int| 0 <= j < n ==> data[j] != 0,
        n == 254 || n == data.len() || data[n as int] == 0,
    ensures
        encode_frame(data)[0] == n + 1,
        encode_frame(data).subrange(1, n + 1 as int) == data.take(n as int),
        n == data.len() ==> encode_frame(data) == seq![(n + 1) as u8] + data + seq![0u8],
        (n == 254 && data.len() > 254) ==> encode_frame(data).skip(255) == encode_frame(
            data.skip(254),
        ),
        (n < 254 && n < data.len()) ==> data[n as int] == 0 && encode_frame(data).skip(
            n + 1 as int,
        ) == encode_frame(data.skip(n + 1 as int)),
{
    if n == 254 {
        lemma_run_len_at_least(data, n);
    } else {
        lemma_run_len_exact(data, n);
    }
    lemma_run_len(data);
    assert(block_len(data) == n);
    let head = seq![(n + 1) as u8] + data.take(n as int);
    let f = encode_frame(data);
    if n == data.len() {
        assert(encode_body(data) == head);
        assert(data.take(n as int) =~= data);
        assert(f =~= seq![(n + 1) as u8] + data + seq![0u8]);
    } else if n == 254 {
        let t = encode_body(data.skip(254));
        assert(encode_body(data) == head + t);
        assert(f =~= head + t.push(0u8));
        assert(f.skip(255) =~= t.push(0u8));
    } else {
        let t = encode_body(data.skip(n + 1 as int));
        assert(encode_body(data) == head + t);
        assert(f =~= head + t.push(0u8));
        assert(f.skip(n + 1 as int) =~= t.push(0u8));
    }
    assert(f.subrange(1, n + 1 as int) =~= data.take(n as int));
}

/// Law: a frame's only zero byte is its last one, the delimiter.
pub proof fn lemma_frame_delimited(data: Seq<u8>)
    ensures
        encode_frame(data).len() >= 2,
        encode_frame(data).last() == 0,
        forall|i: int| 0 <= i < encode_frame(data).len() - 1 ==> encode_frame(data)[i] != 0,
{
    lemma_encode_body_no_zero(data);
    let e = encode_body(data);
    assert forall|i: int| 0 <= i < encode_frame(data).len() - 1 implies encode_frame(data)[i]
        != 0 by {
        assert(encode_frame(data)[i] == e[i]);
    }
}

/// Law: how `decode` reads the first frame of `buf`, whose delimiter is at
/// `z`. A frame body that is empty, starts with a zero code, or whose code
/// byte `c` promises more bytes than the body holds gives an empty packet. A
/// body that is exactly one block gives the `c - 1` bytes after the code,
/// unchanged and in order. A longer body gives either an empty packet (when
/// its later blocks are malformed) or a packet that starts with those bytes,
/// followed by a zero byte when `c` is below `0xFF`. The rest is always the
/// bytes after the delimiter.
pub proof fn lemma_decode_first_block(buf: Seq<u8>, z: int)
    requires
        0 <= z < buf.len(),
        buf[z] == 0,
        forall|j: int| 0 <= j < z ==> buf[j] != 0,
    ensures
        decode_spec(buf).1 == buf.skip(z + 1),
        (z == 0 || buf[0] as int > z) ==> decode_spec(buf).0.len() == 0,
        (z > 0 && buf[0] as int == z) ==> decode_spec(buf).0 == buf.subrange(1, z),
        (z > 0 && (buf[0] as int) < z) ==> {
            let c = buf[0] as int;
            let d = decode_spec(buf).0;
            d.len() == 0 || (d.len() >= c - 1 && d.take(c - 1) == buf.subrange(1, c) && (c < 255
                ==> d.len() >= c && d[c - 1] == 0))
        },
{
    lemma_run_len_exact(buf, z as nat);
    let e = buf.take(z);
    assert(decode_spec(buf).0 == match decode_body(e) {
        Some(d) => d,
        None => Seq::<u8>::empty(),
    });
    if z > 0 {
        assert(e[0] == buf[0]);
        assert(buf[0] != 0);
        let c = buf[0] as int;
        if c <= z {
            assert(e.subrange(1, c) =~= buf.subrange(1, c));
        }
        if c < z {
            match decode_body(e.skip(c)) {
                Some(r) => {
                    let d = decode_body(e).unwrap();
                    if c == 255 {
                        assert(d.take(c - 1) =~= e.subrange(1, c));
                    } else {
                        assert(d.take(c - 1) =~= e.subrange(1, c));
                        assert(d[c - 1] == 0);
                    }
                },
                None => {},
            }
        }
    }
}

/// Counts the non-zero bytes of `data` from `start`, stopping at a zero, at
/// the end of `data`, or after `MAX_BLOCK` bytes.
fn scan_block(data: &[u8], start: usize) -> (n: usize)
    requires
        start <= data@.len(),
    ensures
        n as nat == block_len(data@.skip(start as int)),
        start + n <= data@.len(),
{
    let len = data.len();
    let mut n: usize = 0;
    while n < MAX_BLOCK && start + n < len && data[start + n] != 0
        invariant
            len == data@.len(),
            start <= len,
            n <= MAX_BLOCK,
            start + n <= len,
            forall|j: int| start <= j < start + n ==> data@[j] != 0,
        decreases MAX_BLOCK - n,
    {
        n = n + 1;
    }
    let ghost s = data@.skip(start as int);
    proof {
        assert forall|j: int| 0 <= j < n implies s[j] != 0 by {
            assert(s[j] == data@[start + j]);
            assert(start <= start + j < start + n);
        }
        if n == MAX_BLOCK {
            lemma_run_len_at_least(s, n as nat);
        } else {
            lemma_run_len_exact(s, n as nat);
        }
    }
    n
}

/// Appends `data[from..to]` to `out`.
pub(crate) fn push_range(out: &mut Vec<u8>, data: &[u8], from: usize, to: usize)
    requires
        from <= to <= data@.len(),
    ensures
        final(out)@ == old(out)@ + data@.subrange(from as int, to as int),
{
    let mut k = from;
    while k < to
        invariant
            from <= k <= to,
            to <= data@.len(),
            out@ == old(out)@ + data@.subrange(from as int, k as int),
        decreases to - k,
    {
        out.push(data[k]);
        k = k + 1;
        assert(out@ =~= old(out)@ + data@.subrange(from as int, k as int));
    }
}

/// Encodes `data` into one frame: its COBS encoding followed by the `0x00`
/// delimiter.
pub fn encode(data: &[u8]) -> (frame: Vec<u8>)
    ensures
        frame@ == encode_frame(data@),
        frame@.len() >= 2,
        frame@.last() == 0,
        forall|i: int| 0 <= i < frame@.len() - 1 ==> frame@[i] != 0,
{
    proof {
        lemma_frame_delimited(data@);
    }
    let len = data.len();
    let mut out: Vec<u8> = Vec::new();
    let mut i: usize = 0;
    assert(data@.skip(0) =~= data@);
    loop
        invariant_except_break
            i <= len,
            len == data@.len(),
            out@ + encode_body(data@.skip(i as int)) == encode_body(data@),
        ensures
            out@ == encode_body(data@),
        decreases len - i,
    {
        let ghost s = data@.skip(i as int);
        let ghost prev = out@;
        let n = scan_block(data, i);
        proof {
            lemma_run_len(s);
        }
        out.push((n + 1) as u8);
        push_range(&mut out, data, i, i + n);
        let ghost head = seq![(n + 1) as u8] + s.take(n as int);
        assert(s.take(n as int) =~= data@.subrange(i as int, i + n));
        assert(out@ =~= prev + head);
        if n == MAX_BLOCK {
            if i + n == len {
                assert(encode_body(s) == head);
                break;
            }
            assert(s.skip(254) =~= data@.skip(i + 254));
            assert(encode_body(s) == head + encode_body(data@.skip(i + 254)));
            assert(out@ + encode_body(data@.skip(i + 254)) =~= prev + encode_body(s));
            i = i + n;
        } else {
            if i + n == len {
                assert(encode_body(s) == head);
                break;
            }
            assert(s.skip(n + 1 as int) =~= data@.skip(i + n + 1));
            assert(encode_body(s) == head + encode_body(data@.skip(i + n + 1)));
            assert(out@ + encode_body(data@.skip(i + n + 1)) =~= prev + encode_body(s));
            i = i + n + 1;
        }
    }
    out.push(0u8);
    out
}

/// Prepends `p` to the packet that a decoding produced, if any.
pub open spec fn prepend(p: Seq<u8>, r: Option<Seq<u8>>) -> Option<Seq<u8>> {
    match r {
        Some(x) => Some(p + x),
        None => None,
    }
}

/// Decodes the frame body `buf[..end]` (its bytes before the delimiter).
fn decode_body_exec(buf: &[u8], end: usize) -> (r: Option<Vec<u8>>)
    requires
        end <= buf@.len(),
    ensures
        match r {
            Some(v) => decode_body(buf@.take(end as int)) == Some(v@),
            None => decode_body(buf@.take(end as int)) is None,
        },
{
    let ghost e = buf@.take(end as int);
    if end == 0 {
        return None;
    }
    let mut out: Vec<u8> = Vec::new();
    let mut i: usize = 0;
    assert(e.skip(0) =~= e);
    assert(out@ + Seq::<u8>::empty() =~= Seq::<u8>::empty());
    loop
        invariant
            i < end,
            end <= buf@.len(),
            e == buf@.take(end as int),
            decode_body(e) == prepend(out@, decode_body(e.skip(i as int))),
        decreases end - i,
    {
        let ghost t = e.skip(i as int);
        let ghost prev = out@;
        let c = buf[i];
        assert(t[0] == c);
        if c == 0 || c as usize > end - i {
            return None;
        }
        let cu = c as usize;
        push_range(&mut out, buf, i + 1, i + cu);
        assert(t.subrange(1, cu as int) =~= buf@.subrange(i + 1, i + cu));
        if i + cu == end {
            assert(out@ =~= prev + t.subrange(1, cu as int));
            return Some(out);
        }
        if c != 255 {
            out.push(0u8);
        }
        assert(t.skip(cu as int) =~= e.skip(i + cu));
        assert(out@ =~= prev + (if c == 255 {
            t.subrange(1, cu as int)
        } else {
            t.subrange(1, cu as int) + seq![0u8]
        }));
        proof {
            match decode_body(e.skip(i + cu)) {
                Some(x) => {
                    assert(prev + (if c == 255 {
                        t.subrange(1, cu as int) + x
                    } else {
                        t.subrange(1, cu as int) + seq![0u8] + x
                    }) =~= out@ + x);
                },
                None => {},
            }
        }
        i = i + cu;
    }
}

/// Takes the first complete frame out of the buffered bytes `buf`.
///
/// Returns the packet that the frame carries (empty when the frame is
/// malformed) and the bytes after its delimiter. When `buf` holds no
/// delimiter yet, the packet is empty and the rest is all of `buf`.
pub fn decode<'a>(buf: &'a [u8]) -> (r: (Vec<u8>, &'a [u8]))
    ensures
        (r.0@, r.1@) == decode_spec(buf@),
        (forall|i: int| 0 <= i < buf@.len() ==> buf@[i] != 0) ==> r.0@.len() == 0 && r.1@
            == buf@,
        forall|k: int|
            #![trigger buf@[k]]
            0 <= k < buf@.len() && buf@[k] == 0 && (forall|j: int| 0 <= j < k ==> buf@[j] != 0)
                ==> r.1@ == buf@.skip(k + 1),
{
    proof {
        lemma_run_len(buf@);
        assert forall|k: int|
            0 <= k < buf@.len() && buf@[k] == 0 && (forall|j: int| 0 <= j < k ==> buf@[j] != 0)
                implies run_len(buf@) == k by {
            lemma_run_len_exact(buf@, k as nat);
        }
        if forall|i: int| 0 <= i < buf@.len() ==> buf@[i] != 0 {
            lemma_run_len_exact(buf@, buf@.len());
        }
    }
    let len = buf.len();
    let mut z: usize = 0;
    while z < len && buf[z] != 0
        invariant
            z <= len,
            len == buf@.len(),
            forall|j: int| 0 <= j < z ==> buf@[j] != 0,
        decreases len - z,
    {
        z = z + 1;
    }
    proof {
        lemma_run_len_exact(buf@, z as nat);
    }
    if z == len {
        return (Vec::new(), buf);
    }
    let packet = match decode_body_exec(buf, z) {
        Some(v) => v,
        None => Vec::new(),
    };
    let rest = vstd::slice::slice_subrange(buf, z + 1, len);
    assert(rest@ =~= buf@.skip(z + 1 as int));
    (packet, rest)
}

} // verus!
