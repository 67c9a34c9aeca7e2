//! The structured-binary codec for the envelope's blob form: a
//! deterministic length-prefixed format with one framed field per envelope
//! field. Decoding is all-or-nothing: bytes that are not exactly the
//! encoding of some wire envelope are rejected, never repaired.

use vstd::bytes::{
    lemma_auto_spec_u64_to_from_le_bytes, spec_u64_from_le_bytes, spec_u64_to_le_bytes,
    u64_from_le_bytes, u64_to_le_bytes,
};
use vstd::prelude::*;
use vstd::slice::{slice_subrange, slice_to_vec};

use crate::wire::{view_opt_bytes, view_opt_hash, WireHash, WireNodeEnvelope, WireNodeEnvelopeView};

verus! {

/// A byte field on the wire: eight little-endian length bytes, then the
/// bytes themselves.
pub open spec fn enc_bytes(b: Seq<u8>) -> Seq<u8> {
    spec_u64_to_le_bytes(b.len() as u64) + b
}

/// An optional byte field: a presence byte, then the field when present.
pub open spec fn enc_opt_bytes(o: Option<Seq<u8>>) -> Seq<u8> {
    match o {
        None => seq![0u8],
        Some(b) => seq![1u8] + enc_bytes(b),
    }
}

/// The blob bytes of a wire envelope: its four fields in order.
pub open spec fn enc_envelope(v: WireNodeEnvelopeView) -> Seq<u8> {
    enc_bytes(v.node_id) + enc_opt_bytes(v.p1) + enc_opt_bytes(v.p2) + enc_opt_bytes(v.contents)
}

/// Read one byte field at `pos`: the field bytes and the position after.
pub open spec fn dec_bytes(s: Seq<u8>, pos: int) -> Option<(Seq<u8>, int)> {
    if pos + 8 <= s.len() {
        let n = spec_u64_from_le_bytes(s.subrange(pos, pos + 8)) as int;
        if pos + 8 + n <= s.len() {
            Some((s.subrange(pos + 8, pos + 8 + n), pos + 8 + n))
        } else {
            None
        }
    } else {
        None
    }
}

/// Read one optional byte field at `pos`.
pub open spec fn dec_opt_bytes(s: Seq<u8>, pos: int) -> Option<(Option<Seq<u8>>, int)> {
    if pos < s.len() {
        if s[pos] == 0u8 {
            Some((None, pos + 1))
        } else if s[pos] == 1u8 {
            match dec_bytes(s, pos + 1) {
                Some((b, q)) => Some((Some(b), q)),
                None => None,
            }
        } else {
            None
        }
    } else {
        None
    }
}

/// Frame blob bytes as a wire envelope: the four fields in order with
/// nothing left over, or nothing.
pub open spec fn dec_envelope(s: Seq<u8>) -> Option<WireNodeEnvelopeView> {
    match dec_bytes(s, 0) {
        Some((node_id, pos1)) => match dec_opt_bytes(s, pos1) {
            Some((p1, pos2)) => match dec_opt_bytes(s, pos2) {
                Some((p2, pos3)) => match dec_opt_bytes(s, pos3) {
                    Some((contents, pos4)) => if pos4 == s.len() {
                        Some(WireNodeEnvelopeView { node_id, p1, p2, contents })
                    } else {
                        None
                    },
                    None => None,
                },
                None => None,
            },
            None => None,
        },
        None => None,
    }
}

/// A byte field is read back from wherever its encoding sits.
proof fn lemma_dec_bytes_at(s: Seq<u8>, pos: int, b: Seq<u8>)
    requires
        0 <= pos,
        pos + 8 + b.len() <= s.len(),
        b.len() <= u64::MAX,
        s.subrange(pos, pos + 8 + b.len()) == enc_bytes(b),
    ensures
        dec_bytes(s, pos) == Some((b, pos + 8 + b.len())),
{
    lemma_auto_spec_u64_to_from_le_bytes();
    let window = s.subrange(pos, pos + 8 + b.len());
    assert(spec_u64_to_le_bytes(b.len() as u64).len() == 8);
    assert(s.subrange(pos, pos + 8) =~= window.subrange(0, 8));
    assert(window.subrange(0, 8) =~= spec_u64_to_le_bytes(b.len() as u64));
    assert(spec_u64_from_le_bytes(s.subrange(pos, pos + 8)) == b.len() as u64);
    assert(s.subrange(pos + 8, pos + 8 + b.len()) =~= window.subrange(8, 8 + b.len() as int));
    assert(window.subrange(8, 8 + b.len() as int) =~= b);
}

/// An optional byte field is read back from wherever its encoding sits.
proof fn lemma_dec_opt_bytes_at(s: Seq<u8>, pos: int, o: Option<Seq<u8>>)
    requires
        0 <= pos,
        pos + enc_opt_bytes(o).len() <= s.len(),
        (o matches Some(b) ==> b.len() <= u64::MAX),
        s.subrange(pos, pos + enc_opt_bytes(o).len()) == enc_opt_bytes(o),
    ensures
        dec_opt_bytes(s, pos) == Some((o, pos + enc_opt_bytes(o).len())),
{
    lemma_auto_spec_u64_to_from_le_bytes();
    let window = s.subrange(pos, pos + enc_opt_bytes(o).len());
    match o {
        None => {
            assert(s[pos] == window[0]);
            assert(window[0] == 0u8);
        },
        Some(b) => {
            assert(spec_u64_to_le_bytes(b.len() as u64).len() == 8);
            assert(window =~= seq![1u8] + enc_bytes(b));
            assert(s[pos] == window[0]);
            assert(window[0] == 1u8);
            assert(s.subrange(pos + 1, pos + 1 + 8 + b.len()) =~= enc_bytes(b)) by {
                assert forall|i: int| 0 <= i < 8 + b.len() implies s.subrange(
                    pos + 1,
                    pos + 1 + 8 + b.len(),
                )[i] == enc_bytes(b)[i] by {
                    assert(s.subrange(pos + 1, pos + 1 + 8 + b.len())[i] == s[pos + 1 + i]);
                    assert(s[pos + 1 + i] == window[1 + i]);
                    assert(window[1 + i] == (seq![1u8] + enc_bytes(b))[1 + i]);
                }
            }
            lemma_dec_bytes_at(s, pos + 1, b);
        },
    }
}

/// Decoding inverts encoding: the blob bytes of any wire envelope frame
/// back to exactly that envelope.
pub proof fn lemma_codec_roundtrip(v: WireNodeEnvelopeView)
    requires
        v.node_id.len() <= u64::MAX,
        (v.p1 matches Some(b) ==> b.len() <= u64::MAX),
        (v.p2 matches Some(b) ==> b.len() <= u64::MAX),
        (v.contents matches Some(b) ==> b.len() <= u64::MAX),
    ensures
        dec_envelope(enc_envelope(v)) == Some(v),
{
    lemma_auto_spec_u64_to_from_le_bytes();
    let s = enc_envelope(v);
    let f0 = enc_bytes(v.node_id);
    let f1 = enc_opt_bytes(v.p1);
    let f2 = enc_opt_bytes(v.p2);
    let f3 = enc_opt_bytes(v.contents);
    let pos1 = f0.len() as int;
    let pos2 = pos1 + f1.len();
    let pos3 = pos2 + f2.len();
    let pos4 = pos3 + f3.len();
    assert(spec_u64_to_le_bytes(v.node_id.len() as u64).len() == 8);
    assert(s.len() == pos4);
    assert(s.subrange(0, pos1) =~= f0);
    lemma_dec_bytes_at(s, 0, v.node_id);
    assert(dec_bytes(s, 0) == Some((v.node_id, pos1)));
    assert(s.subrange(pos1, pos2) =~= f1);
    lemma_dec_opt_bytes_at(s, pos1, v.p1);
    assert(s.subrange(pos2, pos3) =~= f2);
    lemma_dec_opt_bytes_at(s, pos2, v.p2);
    assert(s.subrange(pos3, pos4) =~= f3);
    lemma_dec_opt_bytes_at(s, pos3, v.contents);
}

/// Append one byte field.
fn push_bytes(out: &mut Vec<u8>, b: &Vec<u8>)
    ensures
        final (out)@ == old(out)@ + enc_bytes(b@),
{
    let mut lenb = u64_to_le_bytes(b.len() as u64);
    out.append(&mut lenb);
    out.extend_from_slice(b.as_slice());
    proof {
        assert(final (out)@ =~= old(out)@ + enc_bytes(b@));
    }
}

/// Append one optional byte field.
fn push_opt_bytes(out: &mut Vec<u8>, o: &Option<Vec<u8>>)
    ensures
        final (out)@ == old(out)@ + enc_opt_bytes(view_opt_bytes(*o)),
{
    match o {
        None => {
            out.push(0u8);
            proof {
                assert(final (out)@ =~= old(out)@ + enc_opt_bytes(view_opt_bytes(*o)));
            }
        },
        Some(b) => {
            out.push(1u8);
            push_bytes(out, b);
            proof {
                assert(final (out)@ =~= old(out)@ + enc_opt_bytes(view_opt_bytes(*o)));
            }
        },
    }
}

/// Append one optional hash field.
fn push_opt_hash(out: &mut Vec<u8>, o: &Option<WireHash>)
    ensures
        final (out)@ == old(out)@ + enc_opt_bytes(view_opt_hash(*o)),
{
    match o {
        None => {
            out.push(0u8);
            proof {
                assert(final (out)@ =~= old(out)@ + enc_opt_bytes(view_opt_hash(*o)));
            }
        },
        Some(h) => {
            out.push(1u8);
            push_bytes(out, &h.0);
            proof {
                assert(final (out)@ =~= old(out)@ + enc_opt_bytes(view_opt_hash(*o)));
            }
        },
    }
}

/// Encode a wire envelope into blob bytes.
pub fn encode_envelope(w: &WireNodeEnvelope) -> (r: Vec<u8>)
    ensures
        r@ == enc_envelope(w@),
{
    let mut out: Vec<u8> = Vec::new();
    push_bytes(&mut out, &w.node_id.0);
    push_opt_hash(&mut out, &w.p1);
    push_opt_hash(&mut out, &w.p2);
    push_opt_bytes(&mut out, &w.contents);
    proof {
        assert(out@ =~= enc_envelope(w@));
    }
    out
}

/// Read one byte field at `pos`.
fn read_bytes(s: &[u8], pos: usize) -> (r: Option<(Vec<u8>, usize)>)
    requires
        pos <= s@.len(),
    ensures
        match r {
            Some((b, q)) => dec_bytes(s@, pos as int) == Some((b@, q as int)) && q <= s@.len(),
            None => dec_bytes(s@, pos as int) is None,
        },
{
    if s.len() - pos < 8 {
        return None;
    }
    let lenb = slice_subrange(s, pos, pos + 8);
    let n64 = u64_from_le_bytes(lenb);
    let rem = s.len() - (pos + 8);
    if n64 > rem as u64 {
        return None;
    }
    let n = n64 as usize;
    let b = slice_to_vec(slice_subrange(s, pos + 8, pos + 8 + n));
    Some((b, pos + 8 + n))
}

/// Read one optional byte field at `pos`.
fn read_opt_bytes(s: &[u8], pos: usize) -> (r: Option<(Option<Vec<u8>>, usize)>)
    requires
        pos <= s@.len(),
    ensures
        match r {
            Some((o, q)) => dec_opt_bytes(s@, pos as int) == Some((view_opt_bytes(o), q as int))
                && q <= s@.len(),
            None => dec_opt_bytes(s@, pos as int) is None,
        },
{
    if pos >= s.len() {
        return None;
    }
    let tag = s[pos];
    if tag == 0 {
        Some((None, pos + 1))
    } else if tag == 1 {
        match read_bytes(s, pos + 1) {
            Some((b, q)) => Some((Some(b), q)),
            None => None,
        }
    } else {
        None
    }
}

/// Frame blob bytes as a wire envelope, rejecting anything that is not
/// exactly the encoding of one.
pub fn decode_envelope(s: &[u8]) -> (r: Option<WireNodeEnvelope>)
    ensures
        match r {
            Some(w) => dec_envelope(s@) == Some(w@),
            None => dec_envelope(s@) is None,
        },
{
    let (node_id, pos1) = match read_bytes(s, 0) {
        Some(x) => x,
        None => {
            return None;
        },
    };
    let (p1, pos2) = match read_opt_bytes(s, pos1) {
        Some(x) => x,
        None => {
            return None;
        },
    };
    let (p2, pos3) = match read_opt_bytes(s, pos2) {
        Some(x) => x,
        None => {
            return None;
        },
    };
    let (contents, pos4) = match read_opt_bytes(s, pos3) {
        Some(x) => x,
        None => {
            return None;
        },
    };
    if pos4 != s.len() {
        return None;
    }
    let p1 = match p1 {
        Some(b) => Some(WireHash(b)),
        None => None,
    };
    let p2 = match p2 {
        Some(b) => Some(WireHash(b)),
        None => None,
    };
    Some(WireNodeEnvelope { node_id: WireHash(node_id), p1, p2, contents })
}

} // verus!
