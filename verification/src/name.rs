//! Domain names on the wire: length-prefixed labels and compression
//! pointers.
//!
//! A name is stored as its dotted text.  On the wire it is a run of labels,
//! each prefixed by its length, closed by a zero byte; a pair of bytes whose
//! top two bits are both set instead points at labels elsewhere in the
//! message.  Decoding follows at most [`MAX_JUMPS`] pointers and resumes
//! reading fixed fields right after the first pointer.

use vstd::prelude::*;

use crate::error::DnsError;

verus! {

use vstd::string::StringSliceAdditionalSpecFns;

/// The byte separating labels in the text form of a name.
pub const DOT_BYTE: u8 = 0x2E;

/// How many compression pointers one name may follow.
pub const MAX_JUMPS: u32 = 5;

/// What decoding the label run at one position of a message yields: the
/// dotted text bytes of the name, and the position at which the fields after
/// the name continue.
pub ghost struct NameParse {
    /// The name as dotted text bytes, not yet checked to be valid text.
    pub bytes: Seq<u8>,
    /// One past the terminating zero byte, or, if a pointer was followed,
    /// one past the two bytes of the first pointer.
    pub end: int,
}

/// Whether a length byte announces a compression pointer: its top two bits
/// are both set.
pub open spec fn is_pointer_byte(b: u8) -> bool {
    b & 0xC0 == 0xC0
}

/// The offset held in a compression pointer: the low six bits of the first
/// byte followed by the second byte.
pub open spec fn pointer_offset(b0: u8, b1: u8) -> u16 {
    (((b0 & 0x3F) as u16) << 8) | (b1 as u16)
}

/// Joins the text of labels already read to the text of the labels that
/// follow: a dot goes between two nonempty parts.
pub open spec fn spec_sep(a: Seq<u8>, b: Seq<u8>) -> Seq<u8> {
    if a.len() > 0 && b.len() > 0 {
        seq![DOT_BYTE] + b
    } else {
        b
    }
}

/// Decodes the label run at `pos`, with `jumps` pointers already followed.
///
/// A zero byte closes the name.  A pointer byte pair moves reading to its
/// offset, failing once more than [`MAX_JUMPS`] pointers have been followed;
/// the position after the name is fixed by the first pointer followed.  Any
/// other byte is a literal label length.  Reading outside the buffer is a
/// format error.
pub open spec fn spec_parse_chain(buf: Seq<u8>, pos: int, jumps: int) -> Result<
    NameParse,
    DnsError,
>
    recommends
        0 <= jumps <= MAX_JUMPS,
    decreases MAX_JUMPS - jumps, buf.len() - pos,
    when 0 <= jumps <= MAX_JUMPS
{
    if pos < 0 || pos >= buf.len() {
        Err(DnsError::FormatError)
    } else {
        let b = buf[pos];
        if b == 0 {
            Ok(NameParse { bytes: Seq::empty(), end: pos + 1 })
        } else if is_pointer_byte(b) {
            if pos + 1 >= buf.len() {
                Err(DnsError::FormatError)
            } else if jumps >= MAX_JUMPS {
                Err(DnsError::CompressionLoopError)
            } else {
                match spec_parse_chain(buf, pointer_offset(b, buf[pos + 1]) as int, jumps + 1) {
                    Ok(rest) => Ok(NameParse { bytes: rest.bytes, end: pos + 2 }),
                    Err(e) => Err(e),
                }
            }
        } else {
            let len = b as int;
            if pos + 1 + len > buf.len() {
                Err(DnsError::FormatError)
            } else {
                let label = buf.subrange(pos + 1, pos + 1 + len);
                match spec_parse_chain(buf, pos + 1 + len, jumps) {
                    Ok(rest) => Ok(
                        NameParse { bytes: label + spec_sep(label, rest.bytes), end: rest.end },
                    ),
                    Err(e) => Err(e),
                }
            }
        }
    }
}

/// Decodes the name at `pos`: its label run, then the check that the dotted
/// bytes are valid text.
pub open spec fn spec_parse_name(buf: Seq<u8>, pos: int) -> Result<(Seq<u8>, int), DnsError> {
    match spec_parse_chain(buf, pos, 0) {
        Ok(p) => if vstd::utf8::valid_utf8(p.bytes) {
            Ok((p.bytes, p.end))
        } else {
            Err(DnsError::FormatError)
        },
        Err(e) => Err(e),
    }
}

/// The position of the first dot in the dotted text of a name, or the text's
/// length when it holds none.
pub open spec fn first_dot(b: Seq<u8>) -> int
    decreases b.len(),
{
    if b.len() == 0 {
        0
    } else if b[0] == DOT_BYTE {
        0
    } else {
        1 + first_dot(b.drop_first())
    }
}

/// Where the first dot stands: within bounds, on a dot, with none before it.
pub proof fn lemma_first_dot(b: Seq<u8>)
    ensures
        0 <= first_dot(b) <= b.len(),
        first_dot(b) < b.len() ==> b[first_dot(b)] == DOT_BYTE,
        forall|j: int| 0 <= j < first_dot(b) ==> b[j] != DOT_BYTE,
    decreases b.len(),
{
    if b.len() == 0 {
    } else if b[0] == DOT_BYTE {
    } else {
        lemma_first_dot(b.drop_first());
        assert forall|j: int| 0 <= j < first_dot(b) implies b[j] != DOT_BYTE by {
            if j > 0 {
                assert(b.drop_first()[j - 1] == b[j]);
            }
        }
    }
}

/// The first dot is the position given, when no dot stands before it and a
/// dot or the end of the text stands at it.
pub proof fn lemma_first_dot_is(b: Seq<u8>, k: int)
    requires
        0 <= k <= b.len(),
        forall|j: int| 0 <= j < k ==> b[j] != DOT_BYTE,
        k < b.len() ==> b[k] == DOT_BYTE,
    ensures
        first_dot(b) == k,
    decreases b.len(),
{
    if b.len() == 0 {
    } else if b[0] == DOT_BYTE {
    } else {
        assert(forall|j: int| 0 <= j < k - 1 ==> b.drop_first()[j] != DOT_BYTE);
        lemma_first_dot_is(b.drop_first(), k - 1);
    }
}

/// The wire bytes of the label run of a name given as dotted text: each
/// label prefixed by its length (truncated to a byte), without the closing
/// zero.  The empty text encodes as one empty label, as splitting empty text
/// on dots yields one empty piece.
pub open spec fn spec_encode_labels(b: Seq<u8>) -> Seq<u8>
    decreases b.len(),
    via spec_encode_labels_decreases
{
    let i = first_dot(b);
    let label = b.subrange(0, i);
    if i == b.len() {
        seq![i as u8] + label
    } else {
        seq![i as u8] + label + spec_encode_labels(b.subrange(i + 1, b.len() as int))
    }
}

#[via_fn]
proof fn spec_encode_labels_decreases(b: Seq<u8>) {
    lemma_first_dot(b);
}

/// The full wire bytes of a name given as dotted text: its label run and the
/// closing zero byte.  No compression is used on encode.
pub open spec fn spec_name_bytes(b: Seq<u8>) -> Seq<u8> {
    spec_encode_labels(b) + seq![0u8]
}

/// Dotted text is well formed as a name when each of its labels is between 1
/// and 63 bytes long.
pub open spec fn wf_name_bytes(b: Seq<u8>) -> bool
    decreases b.len(),
    via wf_name_bytes_decreases
{
    let i = first_dot(b);
    &&& 1 <= i <= 63
    &&& (i == b.len() || wf_name_bytes(b.subrange(i + 1, b.len() as int)))
}

#[via_fn]
proof fn wf_name_bytes_decreases(b: Seq<u8>) {
    lemma_first_dot(b);
}

/// Decoding the label run of an encoded well-formed name, wherever it is
/// embedded in a message, yields the name's dotted text and ends right after
/// the encoding.  No pointer occurs in such an encoding, so the count of
/// pointers already followed does not matter.
pub proof fn lemma_encoded_name_parses(buf: Seq<u8>, pos: int, nb: Seq<u8>, jumps: int)
    requires
        wf_name_bytes(nb),
        0 <= pos,
        0 <= jumps <= MAX_JUMPS,
        pos + spec_name_bytes(nb).len() <= buf.len(),
        buf.subrange(pos, pos + spec_name_bytes(nb).len() as int) == spec_name_bytes(nb),
    ensures
        spec_parse_chain(buf, pos, jumps) == Ok::<NameParse, DnsError>(
            NameParse { bytes: nb, end: pos + spec_name_bytes(nb).len() },
        ),
    decreases nb.len(),
{
    let i = first_dot(nb);
    lemma_first_dot(nb);
    let label = nb.subrange(0, i);
    let enc = spec_name_bytes(nb);
    assert forall|k: int| pos <= k < pos + enc.len() implies buf[k] == enc[k - pos] by {
        assert(buf.subrange(pos, pos + enc.len() as int)[k - pos] == enc[k - pos]);
    }
    let lb = i as u8;
    assert(lb == i);
    assert(!is_pointer_byte(lb) && lb != 0) by (bit_vector)
        requires
            1 <= lb < 64,
    ;
    if i == nb.len() {
        assert(enc =~= seq![lb] + label + seq![0u8]);
        assert(buf[pos] == lb);
        assert(buf.subrange(pos + 1, pos + 1 + i) =~= label);
        assert(buf[pos + 1 + i] == 0);
        assert(spec_parse_chain(buf, pos + 1 + i, jumps) == Ok::<NameParse, DnsError>(
            NameParse { bytes: Seq::empty(), end: pos + i + 2 },
        ));
        assert(label + spec_sep(label, Seq::<u8>::empty()) =~= nb);
        assert(spec_parse_chain(buf, pos, jumps) == Ok::<NameParse, DnsError>(
            NameParse { bytes: nb, end: pos + enc.len() },
        ));
    } else {
        let rest = nb.subrange(i + 1, nb.len() as int);
        let renc = spec_name_bytes(rest);
        assert(enc =~= seq![lb] + label + renc);
        assert(buf[pos] == lb);
        assert(buf.subrange(pos + 1, pos + 1 + i) =~= label);
        assert(buf.subrange(pos + 1 + i, pos + 1 + i + renc.len() as int) =~= renc);
        lemma_first_dot(rest);
        lemma_encoded_name_parses(buf, pos + 1 + i, rest, jumps);
        assert(rest.len() >= 1);
        assert(label + spec_sep(label, rest) =~= nb);
        assert(spec_parse_chain(buf, pos, jumps) == Ok::<NameParse, DnsError>(
            NameParse { bytes: nb, end: pos + enc.len() },
        ));
    }
}

/// A buffer of `n` chained compression pointers followed by a terminating
/// zero byte: the pair at position `2k` points at position `2k + 2`, and the
/// zero stands at position `2n`.
pub open spec fn ptr_chain(n: nat) -> Seq<u8> {
    Seq::new(2 * n, |i: int| if i % 2 == 0 {
        0xC0u8
    } else {
        (i + 1) as u8
    }) + seq![0u8]
}

/// Follows the chain from its `k`-th pointer with `j` jumps already spent:
/// the decoder accepts the chain exactly when the jumps it still needs fit
/// the bound.
proof fn lemma_ptr_chain_at(n: nat, k: nat, j: nat)
    requires
        k <= n <= 126,
        j <= MAX_JUMPS,
    ensures
        spec_parse_chain(ptr_chain(n), 2 * k as int, j as int) == if n - k + j <= MAX_JUMPS {
            Ok::<NameParse, DnsError>(
                NameParse {
                    bytes: Seq::empty(),
                    end: if k == n {
                        2 * k as int + 1
                    } else {
                        2 * k as int + 2
                    },
                },
            )
        } else {
            Err::<NameParse, DnsError>(DnsError::CompressionLoopError)
        },
    decreases n - k,
{
    let buf = ptr_chain(n);
    assert(buf.len() == 2 * n + 1);
    if k == n {
        assert(buf[2 * k as int] == 0);
    } else {
        assert(buf[2 * k as int] == 0xC0);
        assert(is_pointer_byte(0xC0)) by (bit_vector);
        let b1 = buf[2 * k as int + 1];
        assert(b1 == (2 * k + 2) as u8);
        assert(pointer_offset(0xC0, b1) == b1) by (bit_vector);
        assert(b1 == 2 * k + 2);
        if j < MAX_JUMPS {
            lemma_ptr_chain_at(n, k + 1, j + 1);
        }
    }
}

/// The jump bound: a run of chained compression pointers decodes exactly
/// when it asks for at most [`MAX_JUMPS`] jumps — five chained pointers are
/// accepted and yield the name the chain's end spells, a sixth fails with
/// the compression-loop error.
pub proof fn lemma_jump_bound(n: nat)
    requires
        n <= 126,
    ensures
        n <= MAX_JUMPS ==> spec_parse_name(ptr_chain(n), 0) == Ok::<(Seq<u8>, int), DnsError>(
            (
                Seq::empty(),
                if n == 0 {
                    1int
                } else {
                    2int
                },
            ),
        ),
        n > MAX_JUMPS ==> spec_parse_name(ptr_chain(n), 0) == Err::<(Seq<u8>, int), DnsError>(
            DnsError::CompressionLoopError,
        ),
{
    lemma_ptr_chain_at(n, 0, 0);
    assert(vstd::utf8::valid_utf8(Seq::<u8>::empty()));
}

/// Compares two names by their bytes; equal bytes spell equal text.
pub fn str_eq(a: &str, b: &str) -> (r: bool)
    ensures
        r == (a@ == b@),
{
    let ab = a.as_bytes();
    let bb = b.as_bytes();
    if ab.len() != bb.len() {
        proof {
            if a@ == b@ {
                assert(a.spec_bytes() == b.spec_bytes());
            }
        }
        return false;
    }
    let n = ab.len();
    let mut i: usize = 0;
    while i < n
        invariant
            n == ab@.len() == bb@.len(),
            ab@ == a.spec_bytes(),
            bb@ == b.spec_bytes(),
            i <= n,
            forall|j: int| 0 <= j < i ==> ab@[j] == bb@[j],
        decreases n - i,
    {
        if ab[i] != bb[i] {
            proof {
                if a@ == b@ {
                    assert(a.spec_bytes() == b.spec_bytes());
                }
            }
            return false;
        }
        i = i + 1;
    }
    proof {
        assert(a.spec_bytes() =~= b.spec_bytes());
        vstd::utf8::encode_utf8_decode_utf8(a@);
        vstd::utf8::encode_utf8_decode_utf8(b@);
    }
    true
}

/// Turns bytes into the string they spell.  Relies on `String::from_utf8`:
/// it accepts exactly the byte sequences that are valid UTF-8 and yields the
/// characters they encode.
#[verifier::external_body]
pub fn string_from_utf8(bytes: Vec<u8>) -> (r: Option<String>)
    ensures
        match r {
            Some(s) => vstd::utf8::valid_utf8(bytes@) && s@ == vstd::utf8::decode_utf8(bytes@),
            None => !vstd::utf8::valid_utf8(bytes@),
        },
{
    match String::from_utf8(bytes) {
        Ok(s) => Some(s),
        Err(_) => None,
    }
}

/// Decodes the label run at `start`, returning the dotted text bytes of the
/// name and the position at which the fields after the name continue.
pub fn parse_name_raw(buf: &[u8], start: usize) -> (r: Result<(Vec<u8>, usize), DnsError>)
    ensures
        match r {
            Ok(p) => spec_parse_chain(buf@, start as int, 0) == Ok::<NameParse, DnsError>(
                NameParse { bytes: p.0@, end: p.1 as int },
            ) && p.1 <= buf@.len(),
            Err(e) => spec_parse_chain(buf@, start as int, 0) == Err::<NameParse, DnsError>(e),
        },
{
    let n = buf.len();
    if start >= n {
        return Err(DnsError::FormatError);
    }
    let mut cur: usize = start;
    let mut jumps: u32 = 0;
    let mut resume: Option<usize> = None;
    let mut name: Vec<u8> = Vec::new();
    loop
        invariant
            n == buf@.len(),
            cur <= n,
            jumps <= MAX_JUMPS,
            resume matches Some(x) ==> x <= n,
            match spec_parse_chain(buf@, cur as int, jumps as int) {
                Ok(p) => spec_parse_chain(buf@, start as int, 0) == Ok::<NameParse, DnsError>(
                    NameParse {
                        bytes: name@ + spec_sep(name@, p.bytes),
                        end: match resume {
                            Some(x) => x as int,
                            None => p.end,
                        },
                    },
                ),
                Err(e) => spec_parse_chain(buf@, start as int, 0) == Err::<NameParse, DnsError>(e),
            },
        decreases MAX_JUMPS - jumps, n - cur,
    {
        if cur >= n {
            return Err(DnsError::FormatError);
        }
        let b = buf[cur];
        if b == 0 {
            assert(name@ + spec_sep(name@, Seq::<u8>::empty()) =~= name@);
            let end = match resume {
                Some(x) => x,
                None => cur + 1,
            };
            return Ok((name, end));
        }
        if b & 0xC0 == 0xC0 {
            if cur + 1 >= n {
                return Err(DnsError::FormatError);
            }
            if jumps >= MAX_JUMPS {
                return Err(DnsError::CompressionLoopError);
            }
            let off16: u16 = (((b & 0x3F) as u16) << 8) | (buf[cur + 1] as u16);
            assert(off16 == pointer_offset(b, buf@[cur + 1]));
            if resume.is_none() {
                resume = Some(cur + 2);
            }
            let offset = off16 as usize;
            if offset >= n {
                proof {
                    assert(spec_parse_chain(buf@, off16 as int, jumps as int + 1)
                        == Err::<NameParse, DnsError>(DnsError::FormatError));
                    assert(spec_parse_chain(buf@, cur as int, jumps as int) == Err::<
                        NameParse,
                        DnsError,
                    >(DnsError::FormatError));
                }
                return Err(DnsError::FormatError);
            }
            jumps = jumps + 1;
            cur = offset;
        } else {
            let len = b as usize;
            if len > n - (cur + 1) {
                return Err(DnsError::FormatError);
            }
            let ghost old_name = name@;
            if name.len() > 0 {
                name.push(DOT_BYTE);
            }
            let end_ix = cur + 1 + len;
            name.extend_from_slice(&buf[cur + 1..end_ix]);
            proof {
                let label = buf@.subrange(cur + 1, cur + 1 + len as int);
                assert(label.len() > 0);
                assert(name@ =~= old_name + spec_sep(old_name, label));
                match spec_parse_chain(buf@, cur + 1 + len as int, jumps as int) {
                    Ok(rest) => {
                        assert(old_name + spec_sep(old_name, label + spec_sep(label, rest.bytes))
                            =~= name@ + spec_sep(name@, rest.bytes));
                    },
                    Err(e) => {},
                }
            }
            cur = end_ix;
        }
    }
}

/// Appends the wire encoding of the name held as dotted text: one
/// length-prefixed label per dot-separated piece, then the closing zero.
pub fn push_name(out: &mut Vec<u8>, name: &str)
    ensures
        final(out)@ == old(out)@ + spec_name_bytes(name.spec_bytes()),
{
    let bytes: &[u8] = name.as_bytes();
    let ghost nb = bytes@;
    let n = bytes.len();
    let ghost mut done = Seq::<u8>::empty();
    let mut start: usize = 0;
    let mut i: usize = 0;
    proof {
        assert(nb.subrange(0, n as int) =~= nb);
        assert(done + spec_encode_labels(nb) =~= spec_encode_labels(nb));
    }
    while i < n
        invariant
            n == nb.len(),
            bytes@ == nb,
            start <= i <= n,
            forall|j: int| start <= j < i ==> nb[j] != DOT_BYTE,
            out@ == old(out)@ + done,
            spec_encode_labels(nb) == done + spec_encode_labels(
                nb.subrange(start as int, n as int),
            ),
        decreases n - i,
    {
        if bytes[i] == DOT_BYTE {
            let ghost sub_old = nb.subrange(start as int, n as int);
            out.push((i - start) as u8);
            out.extend_from_slice(&bytes[start..i]);
            proof {
                let fd = i - start as int;
                let label = nb.subrange(start as int, i as int);
                assert forall|j: int| 0 <= j < fd implies sub_old[j] != DOT_BYTE by {
                    assert(sub_old[j] == nb[start + j]);
                }
                assert(sub_old[fd] == DOT_BYTE);
                lemma_first_dot_is(sub_old, fd);
                assert(sub_old.subrange(0, fd) =~= label);
                assert(sub_old.subrange(fd + 1, sub_old.len() as int) =~= nb.subrange(
                    i + 1,
                    n as int,
                ));
                assert(spec_encode_labels(sub_old) == seq![fd as u8] + label + spec_encode_labels(
                    nb.subrange(i + 1, n as int),
                ));
                done = done + seq![fd as u8] + label;
                assert(out@ =~= old(out)@ + done);
            }
            start = i + 1;
        }
        i = i + 1;
    }
    let ghost sub_last = nb.subrange(start as int, n as int);
    out.push((n - start) as u8);
    out.extend_from_slice(&bytes[start..n]);
    out.push(0);
    proof {
        let fd = n - start as int;
        let label = nb.subrange(start as int, n as int);
        assert forall|j: int| 0 <= j < fd implies sub_last[j] != DOT_BYTE by {
            assert(sub_last[j] == nb[start + j]);
        }
        lemma_first_dot_is(sub_last, fd);
        assert(sub_last.subrange(0, fd) =~= label);
        assert(spec_encode_labels(sub_last) == seq![fd as u8] + label);
        assert(out@ =~= old(out)@ + spec_name_bytes(nb));
    }
}

} // verus!
