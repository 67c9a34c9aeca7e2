//! The canonical path model: validated path elements, non-empty validated
//! paths, and the tagged wrapper distinguishing the repository root from a
//! directory or a file. Paths are byte strings, not text: components carry
//! arbitrary bytes except for a small reserved set, and every comparison is
//! byte-wise.

use vstd::prelude::*;
use vstd::slice::slice_to_vec;
use vstd::string::StringSliceAdditionalSpecFns;

use crate::errors::{ErrorKind, InvalidPathReason, WireDataDefect, WireStructure};
use crate::wire::{WirePath, WirePathElement};

verus! {

/// The path separator byte, ASCII '/'.
pub const SEPARATOR_BYTE: u8 = 47;
/// The NUL byte, reserved as an end-of-field marker elsewhere in the system.
pub const NUL_BYTE: u8 = 0;
/// Byte value 1, reserved as a key/value separator in adjacent
/// move-metadata encodings.
pub const BYTE_VALUE_ONE: u8 = 1;
/// The newline byte, reserved as a record separator in adjacent encodings.
pub const NEWLINE_BYTE: u8 = 10;

/// A byte allowed inside a path element.
pub open spec fn elem_byte_ok(b: u8) -> bool {
    b != NUL_BYTE && b != BYTE_VALUE_ONE && b != NEWLINE_BYTE && b != SEPARATOR_BYTE
}

/// A valid path element: non-empty, and free of the reserved bytes and of
/// the separator.
pub open spec fn valid_elem(s: Seq<u8>) -> bool {
    s.len() > 0 && forall|i: int| 0 <= i < s.len() ==> elem_byte_ok(s[i])
}

/// A byte allowed inside a raw path string (the separator is allowed here:
/// it splits the string into elements).
pub open spec fn path_byte_ok(b: u8) -> bool {
    b != NUL_BYTE && b != BYTE_VALUE_ONE && b != NEWLINE_BYTE
}

pub open spec fn path_bytes_ok(s: Seq<u8>) -> bool {
    forall|i: int| 0 <= i < s.len() ==> path_byte_ok(s[i])
}

/// Every component is a valid element.
pub open spec fn all_valid_elems(segs: Seq<Seq<u8>>) -> bool {
    forall|i: int| 0 <= i < segs.len() ==> valid_elem(segs[i])
}

/// A valid path: at least one component, each a valid element.
pub open spec fn valid_path(segs: Seq<Seq<u8>>) -> bool {
    segs.len() > 0 && all_valid_elems(segs)
}

/// Whether the byte `b` occurs in `s`.
pub open spec fn contains_byte(s: Seq<u8>, b: u8) -> bool {
    exists|i: int| 0 <= i < s.len() && s[i] == b
}

/// Split a byte string at every separator, keeping empty segments, so that
/// `raw_split` of the empty string is one empty segment and every separator
/// byte starts a new segment.
pub open spec fn raw_split(s: Seq<u8>) -> Seq<Seq<u8>>
    decreases s.len(),
{
    if s.len() == 0 {
        seq![Seq::<u8>::empty()]
    } else if s.last() == SEPARATOR_BYTE {
        raw_split(s.drop_last()).push(Seq::<u8>::empty())
    } else {
        let r = raw_split(s.drop_last());
        r.update(r.len() - 1, r.last().push(s.last()))
    }
}

/// Drop the empty segments of a split, keeping the order of the rest.
pub open spec fn drop_empty(segs: Seq<Seq<u8>>) -> Seq<Seq<u8>>
    decreases segs.len(),
{
    if segs.len() == 0 {
        Seq::empty()
    } else if segs.last().len() == 0 {
        drop_empty(segs.drop_last())
    } else {
        drop_empty(segs.drop_last()).push(segs.last())
    }
}

/// The components of a raw path string: split at separators, with empty
/// segments dropped, so leading, trailing and repeated separators collapse.
pub open spec fn split_path(s: Seq<u8>) -> Seq<Seq<u8>> {
    drop_empty(raw_split(s))
}

/// Components joined by single separators: the canonical byte form of a path.
pub open spec fn canonical(segs: Seq<Seq<u8>>) -> Seq<u8>
    decreases segs.len(),
{
    if segs.len() == 0 {
        Seq::empty()
    } else if segs.len() == 1 {
        segs[0]
    } else {
        canonical(segs.drop_last()) + seq![SEPARATOR_BYTE] + segs.last()
    }
}

/// Sum of the component byte lengths.
pub open spec fn total_elem_len(segs: Seq<Seq<u8>>) -> int
    decreases segs.len(),
{
    if segs.len() == 0 {
        0
    } else {
        total_elem_len(segs.drop_last()) + segs.last().len()
    }
}

/// Byte length of a path: the component bytes plus one separator between
/// neighbouring components.
pub open spec fn path_len(segs: Seq<Seq<u8>>) -> int {
    total_elem_len(segs) + segs.len() - 1
}

/// The first rule a byte string breaks as a path element, in the order the
/// element constructor checks them, or `None` for a valid element.
pub open spec fn elem_reject_reason(s: Seq<u8>) -> Option<InvalidPathReason> {
    if s.len() == 0 {
        Some(InvalidPathReason::EmptyPathElement)
    } else if contains_byte(s, NUL_BYTE) {
        Some(InvalidPathReason::NulByte)
    } else if contains_byte(s, BYTE_VALUE_ONE) {
        Some(InvalidPathReason::ByteValueOne)
    } else if contains_byte(s, SEPARATOR_BYTE) {
        Some(InvalidPathReason::SlashInPathElement)
    } else if contains_byte(s, NEWLINE_BYTE) {
        Some(InvalidPathReason::NewlineByte)
    } else {
        None
    }
}

/// The first rule a raw byte string breaks as a path, in the order the path
/// constructor checks them, or `None` for a parsable path.
pub open spec fn path_reject_reason(s: Seq<u8>) -> Option<InvalidPathReason> {
    if contains_byte(s, NUL_BYTE) {
        Some(InvalidPathReason::NulByte)
    } else if contains_byte(s, BYTE_VALUE_ONE) {
        Some(InvalidPathReason::ByteValueOne)
    } else if contains_byte(s, NEWLINE_BYTE) {
        Some(InvalidPathReason::NewlineByte)
    } else if split_path(s).len() == 0 {
        Some(InvalidPathReason::EmptyPath)
    } else {
        None
    }
}

/// A valid element is exactly one that no element rule rejects.
pub proof fn lemma_elem_valid_iff_not_rejected(s: Seq<u8>)
    ensures
        valid_elem(s) <==> elem_reject_reason(s) is None,
{
}

/// One path is a component-wise prefix of another: the other path starts
/// with exactly the same components. Comparison is never on raw bytes, so
/// `foo` is a prefix of `foo/bar` but not of `foo1`.
pub open spec fn is_prefix(a: Seq<Seq<u8>>, b: Seq<Seq<u8>>) -> bool {
    a.len() <= b.len() && a == b.take(a.len() as int)
}

/// The views of a sequence of elements.
pub open spec fn elems_view(es: Seq<MPathElement>) -> Seq<Seq<u8>> {
    es.map_values(|e: MPathElement| e@)
}

proof fn lemma_elems_view_push(es: Seq<MPathElement>, e: MPathElement)
    ensures
        elems_view(es.push(e)) == elems_view(es).push(e@),
{
    assert(elems_view(es.push(e)) =~= elems_view(es).push(e@));
}

/// `raw_split` always yields at least one segment.
pub proof fn lemma_raw_split_len(s: Seq<u8>)
    ensures
        raw_split(s).len() >= 1,
    decreases s.len(),
{
    if s.len() > 0 {
        lemma_raw_split_len(s.drop_last());
    }
}

/// No segment of `raw_split` contains the separator, and when the string is
/// free of the reserved bytes, so is every segment.
proof fn lemma_raw_split_bytes(s: Seq<u8>)
    requires
        path_bytes_ok(s),
    ensures
        forall|k: int, j: int|
            0 <= k < raw_split(s).len() && 0 <= j < raw_split(s)[k].len() ==> elem_byte_ok(
                raw_split(s)[k][j],
            ),
    decreases s.len(),
{
    if s.len() > 0 {
        assert(path_bytes_ok(s.drop_last()));
        lemma_raw_split_bytes(s.drop_last());
        lemma_raw_split_len(s.drop_last());
        let r = raw_split(s.drop_last());
        if s.last() == SEPARATOR_BYTE {
            assert forall|k: int, j: int|
                0 <= k < raw_split(s).len() && 0 <= j < raw_split(s)[k].len() implies elem_byte_ok(
                raw_split(s)[k][j],
            ) by {
                if k < r.len() {
                    assert(raw_split(s)[k] == r[k]);
                }
            }
        } else {
            assert(path_byte_ok(s.last()));
            assert forall|k: int, j: int|
                0 <= k < raw_split(s).len() && 0 <= j < raw_split(s)[k].len() implies elem_byte_ok(
                raw_split(s)[k][j],
            ) by {
                if k < r.len() - 1 {
                    assert(raw_split(s)[k] == r[k]);
                } else {
                    assert(raw_split(s)[k] == r.last().push(s.last()));
                }
            }
        }
    }
}

/// Segments kept by `drop_empty` are non-empty, so when every input byte is
/// allowed in an element, every kept segment is a valid element.
proof fn lemma_drop_empty_valid(segs: Seq<Seq<u8>>)
    requires
        forall|k: int, j: int|
            0 <= k < segs.len() && 0 <= j < segs[k].len() ==> elem_byte_ok(segs[k][j]),
    ensures
        all_valid_elems(drop_empty(segs)),
    decreases segs.len(),
{
    if segs.len() > 0 {
        assert(forall|k: int, j: int|
            0 <= k < segs.drop_last().len() && 0 <= j < segs.drop_last()[k].len() ==> elem_byte_ok(
                #[trigger] segs.drop_last()[k][j],
            ));
        lemma_drop_empty_valid(segs.drop_last());
        if segs.last().len() > 0 {
            let d = drop_empty(segs.drop_last());
            assert forall|i: int| 0 <= i < drop_empty(segs).len() implies valid_elem(
                drop_empty(segs)[i],
            ) by {
                if i < d.len() {
                    assert(drop_empty(segs)[i] == d[i]);
                } else {
                    assert(drop_empty(segs)[i] == segs.last());
                    assert(forall|j: int|
                        0 <= j < segs.last().len() ==> elem_byte_ok(#[trigger] segs.last()[j]));
                }
            }
        }
    }
}

/// Every component of a parsed path is a valid element.
pub proof fn lemma_split_path_valid(s: Seq<u8>)
    requires
        path_bytes_ok(s),
    ensures
        all_valid_elems(split_path(s)),
{
    lemma_raw_split_bytes(s);
    lemma_drop_empty_valid(raw_split(s));
}

/// The component byte lengths sum to something non-negative, and a prefix
/// of the components never sums to more than the whole.
proof fn lemma_total_elem_len_bounds(segs: Seq<Seq<u8>>, i: int)
    requires
        0 <= i <= segs.len(),
    ensures
        0 <= total_elem_len(segs.take(i)) <= total_elem_len(segs),
    decreases segs.len(),
{
    if segs.len() == 0 {
        assert(segs.take(i) =~= segs);
    } else if i == segs.len() {
        assert(segs.take(i) =~= segs);
        lemma_total_elem_len_bounds(segs.drop_last(), segs.len() - 1);
        assert(segs.drop_last().take(segs.len() - 1) =~= segs.drop_last());
    } else {
        assert(segs.take(i) =~= segs.drop_last().take(i));
        lemma_total_elem_len_bounds(segs.drop_last(), i);
    }
}

/// The canonical byte form of a non-empty path has exactly the path's
/// length: the component bytes plus one separator between neighbours.
pub proof fn lemma_canonical_len(segs: Seq<Seq<u8>>)
    requires
        segs.len() > 0,
    ensures
        canonical(segs).len() == path_len(segs),
    decreases segs.len(),
{
    if segs.len() == 1 {
        assert(segs.drop_last().len() == 0);
        assert(total_elem_len(segs.drop_last()) == 0);
        assert(total_elem_len(segs) == segs.last().len());
        assert(canonical(segs) == segs[0]);
        assert(segs[0] == segs.last());
    } else {
        lemma_canonical_len(segs.drop_last());
        assert(canonical(segs) == canonical(segs.drop_last()) + seq![SEPARATOR_BYTE]
            + segs.last());
    }
}

/// Dropping empties from a one-segment sequence keeps the segment exactly
/// when it is non-empty.
proof fn lemma_drop_empty_singleton(e: Seq<u8>)
    ensures
        e.len() == 0 ==> drop_empty(seq![e]) == Seq::<Seq<u8>>::empty(),
        e.len() > 0 ==> drop_empty(seq![e]) == seq![e],
{
    let s = seq![e];
    assert(s.last() == e);
    assert(s.drop_last() =~= Seq::<Seq<u8>>::empty());
    assert(drop_empty(Seq::<Seq<u8>>::empty()) == Seq::<Seq<u8>>::empty());
    if e.len() > 0 {
        assert(drop_empty(s) == drop_empty(s.drop_last()).push(e));
        assert(Seq::<Seq<u8>>::empty().push(e) =~= seq![e]);
    }
}

/// A byte string without separators splits into itself as the one segment.
proof fn lemma_raw_split_no_sep(s: Seq<u8>)
    requires
        forall|i: int| 0 <= i < s.len() ==> s[i] != SEPARATOR_BYTE,
    ensures
        raw_split(s) == seq![s],
    decreases s.len(),
{
    if s.len() == 0 {
        assert(seq![Seq::<u8>::empty()] =~~= seq![s]);
    } else {
        assert(forall|i: int| 0 <= i < s.drop_last().len() ==> s.drop_last()[i] != SEPARATOR_BYTE);
        lemma_raw_split_no_sep(s.drop_last());
        let r = raw_split(s.drop_last());
        assert(raw_split(s) == r.update(0, r.last().push(s.last())));
        assert(s.drop_last().push(s.last()) =~= s);
        assert(r.update(0, s) =~~= seq![s]);
    }
}

/// Appending a separator and then a separator-free segment appends exactly
/// that segment to the split.
proof fn lemma_raw_split_append_seg(x: Seq<u8>, seg: Seq<u8>)
    requires
        forall|i: int| 0 <= i < seg.len() ==> seg[i] != SEPARATOR_BYTE,
    ensures
        raw_split(x + seq![SEPARATOR_BYTE] + seg) == raw_split(x).push(seg),
    decreases seg.len(),
{
    if seg.len() == 0 {
        let t = x + seq![SEPARATOR_BYTE] + seg;
        assert(t =~= x + seq![SEPARATOR_BYTE]);
        assert(t.last() == SEPARATOR_BYTE);
        assert(t.drop_last() =~= x);
        assert(seg =~= Seq::<u8>::empty());
    } else {
        let t = x + seq![SEPARATOR_BYTE] + seg;
        assert(forall|i: int| 0 <= i < seg.drop_last().len() ==> seg.drop_last()[i] != SEPARATOR_BYTE);
        lemma_raw_split_append_seg(x, seg.drop_last());
        assert(t.last() == seg.last());
        assert(t.last() != SEPARATOR_BYTE);
        assert(t.drop_last() =~= x + seq![SEPARATOR_BYTE] + seg.drop_last());
        lemma_raw_split_len(x);
        let r = raw_split(x).push(seg.drop_last());
        assert(raw_split(t) == r.update(r.len() - 1, r.last().push(seg.last())));
        assert(seg.drop_last().push(seg.last()) =~= seg);
        assert(r.update(r.len() - 1, seg) =~= raw_split(x).push(seg));
    }
}

/// Parsing undoes joining: splitting the canonical byte form of a valid
/// component sequence yields exactly those components, and the canonical
/// bytes contain no reserved byte.
pub proof fn lemma_split_canonical(segs: Seq<Seq<u8>>)
    requires
        valid_path(segs),
    ensures
        split_path(canonical(segs)) == segs,
        path_bytes_ok(canonical(segs)),
    decreases segs.len(),
{
    if segs.len() == 1 {
        let s0 = segs[0];
        assert(valid_elem(s0));
        assert(canonical(segs) == s0);
        lemma_raw_split_no_sep(s0);
        assert(seq![s0].drop_last() =~= Seq::<Seq<u8>>::empty());
        assert(drop_empty(seq![s0]) == drop_empty(Seq::<Seq<u8>>::empty()).push(s0));
        assert(drop_empty(Seq::<Seq<u8>>::empty()).push(s0) =~= segs);
    } else {
        let front = segs.drop_last();
        let last = segs.last();
        assert(valid_path(front));
        assert(valid_elem(last));
        lemma_split_canonical(front);
        lemma_raw_split_append_seg(canonical(front), last);
        assert(canonical(segs) == canonical(front) + seq![SEPARATOR_BYTE] + last);
        let raw = raw_split(canonical(front)).push(last);
        assert(raw.drop_last() =~= raw_split(canonical(front)));
        assert(drop_empty(raw) == drop_empty(raw_split(canonical(front))).push(last));
        assert(front.push(last) =~= segs);
        assert forall|i: int| 0 <= i < canonical(segs).len() implies path_byte_ok(
            canonical(segs)[i],
        ) by {
            let c = canonical(front);
            if i < c.len() {
                assert(canonical(segs)[i] == c[i]);
            } else if i == c.len() {
                assert(canonical(segs)[i] == SEPARATOR_BYTE);
            } else {
                assert(canonical(segs)[i] == last[i - c.len() - 1]);
                assert(elem_byte_ok(last[i - c.len() - 1]));
            }
        }
    }
}

/// Construction is idempotent on its own canonical output: re-parsing the
/// canonical bytes of a parsed path is accepted and yields the same
/// components, so duplicate, leading and trailing separators collapse while
/// component content is preserved.
pub proof fn lemma_construct_idempotent(s: Seq<u8>)
    requires
        path_reject_reason(s) is None,
    ensures
        path_reject_reason(canonical(split_path(s))) is None,
        split_path(canonical(split_path(s))) == split_path(s),
{
    assert(path_bytes_ok(s));
    lemma_split_path_valid(s);
    lemma_split_canonical(split_path(s));
}

/// Wire round trip for elements: a valid element is exactly what the wire
/// decoder accepts, and encoding leaves the bytes unchanged, so decoding an
/// element's wire form yields an element with the same bytes.
pub proof fn lemma_element_wire_roundtrip(s: Seq<u8>)
    requires
        valid_elem(s),
    ensures
        elem_reject_reason(s) is None,
{
    lemma_elem_valid_iff_not_rejected(s);
}

/// Wire round trip for paths: a valid path is exactly what the wire decoder
/// accepts (at least one element, every element valid), and encoding leaves
/// the components unchanged, so decoding a path's wire form yields a path
/// with the same components.
pub proof fn lemma_path_wire_roundtrip(segs: Seq<Seq<u8>>)
    requires
        valid_path(segs),
    ensures
        segs.len() > 0,
        all_valid_elems(segs),
        forall|i: int| 0 <= i < segs.len() ==> elem_reject_reason(#[trigger] segs[i]) is None,
{
    assert forall|i: int| 0 <= i < segs.len() implies elem_reject_reason(
        #[trigger] segs[i],
    ) is None by {
        lemma_elem_valid_iff_not_rejected(segs[i]);
    }
}

/// An element of a path or filename. Pathnames are sequences of bytes, not
/// necessarily valid text; the reserved bytes (NUL, byte value 1, newline)
/// and the separator are excluded at construction.
#[derive(Debug, Eq, PartialOrd, Ord, Hash)]
pub struct MPathElement(Vec<u8>);

impl View for MPathElement {
    type V = Seq<u8>;

    closed spec fn view(&self) -> Seq<u8> {
        self.0@
    }
}

impl Clone for MPathElement {
    fn clone(&self) -> (r: Self)
        ensures
            r@ == self@,
    {
        MPathElement(clone_bytes(&self.0))
    }
}

impl PartialEq for MPathElement {
    fn eq(&self, other: &Self) -> (r: bool)
        ensures
            r == (self@ == other@),
    {
        let r = self.0 == other.0;
        proof {
            if r {
                assert(self.0@ =~= other.0@);
            }
        }
        r
    }
}

impl vstd::std_specs::cmp::PartialEqSpecImpl for MPathElement {
    open spec fn obeys_eq_spec() -> bool {
        true
    }

    open spec fn eq_spec(&self, other: &Self) -> bool {
        self@ == other@
    }
}

/// Copy a byte vector.
fn clone_bytes(v: &Vec<u8>) -> (r: Vec<u8>)
    ensures
        r@ == v@,
{
    slice_to_vec(v.as_slice())
}

/// Whether the byte `b` occurs in the slice.
fn find_byte(s: &[u8], b: u8) -> (r: bool)
    ensures
        r == contains_byte(s@, b),
{
    let mut i: usize = 0;
    while i < s.len()
        invariant
            0 <= i <= s@.len(),
            forall|j: int| 0 <= j < i ==> s@[j] != b,
        decreases s@.len() - i,
    {
        if s[i] == b {
            return true;
        }
        i = i + 1;
    }
    false
}

impl MPathElement {
    /// Validate raw bytes as one path element.
    pub fn new(element: Vec<u8>) -> (r: Result<MPathElement, ErrorKind>)
        ensures
            match r {
                Ok(e) => elem_reject_reason(element@) is None && e@ == element@,
                Err(err) => {
                    &&& elem_reject_reason(element@) is Some
                    &&& err matches ErrorKind::InvalidPath(raw, reason) && raw@ == element@
                        && elem_reject_reason(element@) == Some(reason)
                },
            },
    {
        if element.len() == 0 {
            return Err(ErrorKind::InvalidPath(element, InvalidPathReason::EmptyPathElement));
        }
        if find_byte(element.as_slice(), NUL_BYTE) {
            return Err(ErrorKind::InvalidPath(element, InvalidPathReason::NulByte));
        }
        if find_byte(element.as_slice(), BYTE_VALUE_ONE) {
            return Err(ErrorKind::InvalidPath(element, InvalidPathReason::ByteValueOne));
        }
        if find_byte(element.as_slice(), SEPARATOR_BYTE) {
            return Err(ErrorKind::InvalidPath(element, InvalidPathReason::SlashInPathElement));
        }
        if find_byte(element.as_slice(), NEWLINE_BYTE) {
            return Err(ErrorKind::InvalidPath(element, InvalidPathReason::NewlineByte));
        }
        Ok(MPathElement(element))
    }

    /// Decode one wire element, revalidating it, and tagging a failure as
    /// invalid wire data for the containing structure.
    pub fn from_wire(element: WirePathElement) -> (r: Result<MPathElement, ErrorKind>)
        ensures
            match r {
                Ok(e) => elem_reject_reason(element@) is None && e@ == element@,
                Err(err) => {
                    &&& elem_reject_reason(element@) is Some
                    &&& err matches ErrorKind::InvalidWireData(s, d) && s
                        == WireStructure::MPathElement && (d matches WireDataDefect::BadPathElement(
                        raw,
                        reason,
                    ) && raw@ == element@ && elem_reject_reason(element@) == Some(reason))
                },
            },
    {
        match Self::new(element.0) {
            Ok(e) => Ok(e),
            Err(err) => match err {
                ErrorKind::InvalidPath(raw, reason) => Err(
                    ErrorKind::InvalidWireData(
                        WireStructure::MPathElement,
                        WireDataDefect::BadPathElement(raw, reason),
                    ),
                ),
                _ => {
                    proof {
                        assert(false);
                    }
                    Err(err)
                },
            },
        }
    }

    /// Encode to the wire form: the raw bytes, unchanged.
    pub fn into_wire(self) -> (r: WirePathElement)
        ensures
            r@ == self@,
    {
        WirePathElement(self.0)
    }

    /// Borrow the element's bytes.
    pub fn as_bytes(&self) -> (r: &[u8])
        ensures
            r@ == self@,
    {
        self.0.as_slice()
    }

    /// Copy the element's bytes.
    pub fn to_bytes(&self) -> (r: Vec<u8>)
        ensures
            r@ == self@,
    {
        clone_bytes(&self.0)
    }

    /// Extend the element's bytes in place. Validation is not re-run: the
    /// caller must already know the appended bytes keep the element valid,
    /// for example because they come from another validated element.
    pub fn extend(&mut self, toappend: &[u8])
        ensures
            final (self)@ == old(self)@ + toappend@,
    {
        self.0.extend_from_slice(toappend);
    }

    /// The element's length in bytes.
    pub fn len(&self) -> (r: usize)
        ensures
            r == self@.len(),
    {
        self.0.len()
    }
}

/// A path within the repository: a non-empty sequence of validated elements.
#[derive(Debug, PartialEq, Eq, PartialOrd, Ord, Hash)]
pub struct MPath {
    elements: Vec<MPathElement>,
}

impl View for MPath {
    type V = Seq<Seq<u8>>;

    closed spec fn view(&self) -> Seq<Seq<u8>> {
        elems_view(self.elements@)
    }
}

impl Clone for MPath {
    fn clone(&self) -> (r: Self)
        ensures
            r@ == self@,
    {
        MPath { elements: clone_elements(&self.elements) }
    }
}

/// Copy a vector of elements, keeping the views.
fn clone_elements(v: &Vec<MPathElement>) -> (r: Vec<MPathElement>)
    ensures
        elems_view(r@) == elems_view(v@),
{
    let mut out: Vec<MPathElement> = Vec::new();
    let mut i: usize = 0;
    while i < v.len()
        invariant
            0 <= i <= v@.len(),
            elems_view(out@) == elems_view(v@).take(i as int),
        decreases v@.len() - i,
    {
        let e = v[i].clone();
        out.push(e);
        proof {
            lemma_elems_view_push(out@.drop_last(), out@.last());
            assert(out@.drop_last().push(out@.last()) =~= out@);
            assert(elems_view(v@).take(i as int).push(v@[i as int]@) =~= elems_view(v@).take(
                i as int + 1,
            ));
        }
        i = i + 1;
    }
    proof {
        assert(elems_view(v@).take(v@.len() as int) =~= elems_view(v@));
    }
    out
}

impl MPath {
    /// The type's invariant: at least one component, each a valid element.
    pub open spec fn inv(&self) -> bool {
        valid_path(self@)
    }

    /// Parse a raw byte string: reject the reserved bytes, split at
    /// separators, drop empty segments, and reject a result with no
    /// components (the empty string, or a string made of separators only).
    pub fn new(p: &[u8]) -> (r: Result<MPath, ErrorKind>)
        ensures
            match r {
                Ok(path) => path_reject_reason(p@) is None && path@ == split_path(p@)
                    && path.inv(),
                Err(err) => {
                    &&& path_reject_reason(p@) is Some
                    &&& err matches ErrorKind::InvalidPath(raw, reason) && raw@ == p@
                        && path_reject_reason(p@) == Some(reason)
                },
            },
    {
        if find_byte(p, NUL_BYTE) {
            return Err(ErrorKind::InvalidPath(slice_to_vec(p), InvalidPathReason::NulByte));
        }
        if find_byte(p, BYTE_VALUE_ONE) {
            return Err(ErrorKind::InvalidPath(slice_to_vec(p), InvalidPathReason::ByteValueOne));
        }
        if find_byte(p, NEWLINE_BYTE) {
            return Err(ErrorKind::InvalidPath(slice_to_vec(p), InvalidPathReason::NewlineByte));
        }
        assert(path_bytes_ok(p@));
        let mut elements: Vec<MPathElement> = Vec::new();
        let mut cur: Vec<u8> = Vec::new();
        let mut i: usize = 0;
        proof {
            assert(p@.take(0) =~= Seq::<u8>::empty());
        }
        while i < p.len()
            invariant
                0 <= i <= p@.len(),
                path_bytes_ok(p@),
                raw_split(p@.take(i as int)).len() >= 1,
                cur@ == raw_split(p@.take(i as int)).last(),
                elems_view(elements@) == drop_empty(raw_split(p@.take(i as int)).drop_last()),
            decreases p@.len() - i,
        {
            let ghost raw = raw_split(p@.take(i as int));
            let b = p[i];
            proof {
                let t = p@.take(i as int + 1);
                assert(t.drop_last() =~= p@.take(i as int));
                assert(t.last() == p@[i as int]);
                lemma_raw_split_len(t.drop_last());
            }
            if b == SEPARATOR_BYTE {
                proof {
                    assert(raw_split(p@.take(i as int + 1)) == raw.push(Seq::<u8>::empty()));
                    assert(raw.push(Seq::<u8>::empty()).drop_last() =~= raw);
                }
                if cur.len() > 0 {
                    let done = cur;
                    cur = Vec::new();
                    elements.push(MPathElement(done));
                    proof {
                        lemma_elems_view_push(elements@.drop_last(), elements@.last());
                        assert(elements@.drop_last().push(elements@.last()) =~= elements@);
                        assert(drop_empty(raw) == drop_empty(raw.drop_last()).push(raw.last()));
                    }
                } else {
                    proof {
                        assert(drop_empty(raw) == drop_empty(raw.drop_last()));
                    }
                }
            } else {
                cur.push(b);
                proof {
                    let raw2 = raw.update(raw.len() - 1, raw.last().push(p@[i as int]));
                    assert(raw_split(p@.take(i as int + 1)) == raw2);
                    assert(raw2.drop_last() =~= raw.drop_last());
                    assert(raw2.last() == raw.last().push(p@[i as int]));
                }
            }
            i = i + 1;
        }
        proof {
            assert(p@.take(p@.len() as int) =~= p@);
        }
        let ghost raw = raw_split(p@);
        if cur.len() > 0 {
            elements.push(MPathElement(cur));
            proof {
                lemma_elems_view_push(elements@.drop_last(), elements@.last());
                assert(elements@.drop_last().push(elements@.last()) =~= elements@);
                assert(drop_empty(raw) == drop_empty(raw.drop_last()).push(raw.last()));
            }
        } else {
            proof {
                assert(drop_empty(raw) == drop_empty(raw.drop_last()));
            }
        }
        assert(elems_view(elements@) == split_path(p@));
        if elements.len() == 0 {
            assert(split_path(p@).len() == 0);
            return Err(ErrorKind::InvalidPath(slice_to_vec(p), InvalidPathReason::EmptyPath));
        }
        proof {
            lemma_split_path_valid(p@);
        }
        Ok(MPath { elements })
    }

    /// Decode a wire path: every element is revalidated, the first failure
    /// is reported, and a path with no elements at all is rejected.
    pub fn from_wire(wire: WirePath) -> (r: Result<MPath, ErrorKind>)
        ensures
            match r {
                Ok(path) => wire@.len() > 0 && all_valid_elems(wire@) && path@ == wire@
                    && path.inv(),
                Err(err) => {
                    &&& !(wire@.len() > 0 && all_valid_elems(wire@))
                    &&& err matches ErrorKind::InvalidWireData(s, d) && s == WireStructure::MPath
                        && (match d {
                        WireDataDefect::EmptyPath => wire@.len() == 0,
                        WireDataDefect::BadPathElement(raw, reason) => exists|k: int|
                            0 <= k < wire@.len() && raw@ == wire@[k] && elem_reject_reason(
                                wire@[k],
                            ) == Some(reason) && (forall|j: int|
                                0 <= j < k ==> elem_reject_reason(wire@[j]) is None),
                        _ => false,
                    })
                },
            },
    {
        let n = wire.0.len();
        let mut elements: Vec<MPathElement> = Vec::new();
        let mut i: usize = 0;
        while i < n
            invariant
                0 <= i <= n,
                n == wire@.len(),
                elems_view(elements@) == wire@.take(i as int),
                forall|j: int| 0 <= j < i ==> elem_reject_reason(wire@[j]) is None,
            decreases n - i,
        {
            let bytes = clone_bytes(&wire.0[i].0);
            match MPathElement::new(bytes) {
                Ok(e) => {
                    elements.push(e);
                    proof {
                        lemma_elems_view_push(elements@.drop_last(), elements@.last());
                        assert(elements@.drop_last().push(elements@.last()) =~= elements@);
                        assert(wire@.take(i as int).push(wire@[i as int]) =~= wire@.take(
                            i as int + 1,
                        ));
                    }
                },
                Err(err) => {
                    match err {
                        ErrorKind::InvalidPath(raw, reason) => {
                            proof {
                                lemma_elem_valid_iff_not_rejected(wire@[i as int]);
                                assert(raw@ == wire@[i as int]);
                                assert(exists|k: int|
                                    0 <= k < wire@.len() && raw@ == wire@[k] && elem_reject_reason(
                                        wire@[k],
                                    ) == Some(reason) && (forall|j: int|
                                        0 <= j < k ==> elem_reject_reason(wire@[j]) is None));
                            }
                            return Err(
                                ErrorKind::InvalidWireData(
                                    WireStructure::MPath,
                                    WireDataDefect::BadPathElement(raw, reason),
                                ),
                            );
                        },
                        _ => {
                            proof {
                                assert(false);
                            }
                            return Err(err);
                        },
                    }
                },
            }
            i = i + 1;
        }
        proof {
            assert(wire@.take(n as int) =~= wire@);
        }
        if elements.len() == 0 {
            return Err(
                ErrorKind::InvalidWireData(WireStructure::MPath, WireDataDefect::EmptyPath),
            );
        }
        proof {
            assert forall|k: int| 0 <= k < wire@.len() implies valid_elem(wire@[k]) by {
                lemma_elem_valid_iff_not_rejected(wire@[k]);
            }
        }
        Ok(MPath { elements })
    }

    /// Encode to the wire form: the same elements, unchanged.
    pub fn into_wire(self) -> (r: WirePath)
        ensures
            r@ == self@,
    {
        let mut out: Vec<WirePathElement> = Vec::new();
        let mut i: usize = 0;
        while i < self.elements.len()
            invariant
                0 <= i <= self.elements@.len(),
                out@.map_values(|w: WirePathElement| w@) == self@.take(i as int),
            decreases self.elements@.len() - i,
        {
            let e = self.elements[i].clone();
            out.push(e.into_wire());
            proof {
                assert(out@.drop_last().push(out@.last()) =~= out@);
                assert(out@.drop_last().map_values(|w: WirePathElement| w@).push(out@.last()@)
                    =~= out@.map_values(|w: WirePathElement| w@));
                assert(self@.take(i as int).push(self@[i as int]) =~= self@.take(i as int + 1));
            }
            i = i + 1;
        }
        proof {
            assert(self@.take(self@.len() as int) =~= self@);
        }
        WirePath(out)
    }

    /// Borrow the path's elements.
    pub fn elements(&self) -> (r: &Vec<MPathElement>)
        ensures
            elems_view(r@) == self@,
    {
        &self.elements
    }

    /// The number of components in this path.
    pub fn num_components(&self) -> (r: usize)
        ensures
            r == self@.len(),
    {
        self.elements.len()
    }

    /// The number of leading components shared with another component
    /// sequence: the scan stops at the first mismatch or at the end of the
    /// shorter side.
    pub fn common_components(&self, other: &Vec<MPathElement>) -> (r: usize)
        ensures
            r <= self@.len() && r <= other@.len(),
            forall|j: int| 0 <= j < r ==> self@[j] == elems_view(other@)[j],
            r < self@.len() && r < other@.len() ==> self@[r as int] != elems_view(other@)[
                r as int
            ],
    {
        let n = if self.elements.len() < other.len() {
            self.elements.len()
        } else {
            other.len()
        };
        let mut i: usize = 0;
        while i < n
            invariant
                0 <= i <= n,
                n <= self@.len() && n <= other@.len(),
                n == self@.len() || n == other@.len(),
                forall|j: int| 0 <= j < i ==> self@[j] == elems_view(other@)[j],
            decreases n - i,
        {
            if !(self.elements[i] == other[i]) {
                return i;
            }
            i = i + 1;
        }
        n
    }

    /// Whether this path is a component-wise path prefix of the other.
    pub fn is_prefix_of(&self, other: &MPath) -> (r: bool)
        ensures
            r == is_prefix(self@, other@),
    {
        let c = self.common_components(other.elements());
        let r = c == self.elements.len();
        proof {
            if r {
                assert(self@ =~= other@.take(self@.len() as int));
            } else if is_prefix(self@, other@) {
                assert(self@[c as int] == other@.take(self@.len() as int)[c as int]);
                assert(false);
            }
        }
        r
    }

    /// The final component. A path is never empty, so this always exists.
    pub fn basename(&self) -> (r: &MPathElement)
        requires
            self@.len() > 0,
        ensures
            r@ == self@.last(),
    {
        &self.elements[self.elements.len() - 1]
    }

    /// Copy the first `n` components into a new vector.
    fn prefix_elements(&self, n: usize) -> (r: Vec<MPathElement>)
        requires
            n <= self@.len(),
        ensures
            elems_view(r@) == self@.take(n as int),
    {
        let mut out: Vec<MPathElement> = Vec::new();
        let mut i: usize = 0;
        while i < n
            invariant
                0 <= i <= n,
                n <= self.elements@.len(),
                elems_view(out@) == self@.take(i as int),
            decreases n - i,
        {
            let e = self.elements[i].clone();
            out.push(e);
            proof {
                lemma_elems_view_push(out@.drop_last(), out@.last());
                assert(out@.drop_last().push(out@.last()) =~= out@);
                assert(self@.take(i as int).push(self@[i as int]) =~= self@.take(i as int + 1));
            }
            i = i + 1;
        }
        out
    }

    /// A new path made of the given number of leading components: zero
    /// components yield `None`, asking for more than the path has fails.
    pub fn take_prefix_components(&self, components: usize) -> (r: Result<
        Option<MPath>,
        ErrorKind,
    >)
        ensures
            match r {
                Ok(opt) => components <= self@.len() && (match opt {
                    None => components == 0,
                    Some(q) => components > 0 && q@ == self@.take(components as int) && (
                    self.inv() ==> q.inv()),
                }),
                Err(e) => components > self@.len() && (e
                    matches ErrorKind::TooManyPrefixComponents(want, have) && want == components
                    && have == self@.len()),
            },
    {
        if components == 0 {
            return Ok(None);
        }
        if components > self.elements.len() {
            return Err(ErrorKind::TooManyPrefixComponents(components, self.elements.len()));
        }
        let q = MPath { elements: self.prefix_elements(components) };
        proof {
            if self.inv() {
                assert forall|i: int| 0 <= i < q@.len() implies valid_elem(q@[i]) by {
                    assert(q@[i] == self@[i]);
                }
            }
        }
        Ok(Some(q))
    }

    /// Split into the leading directory (when more than one component
    /// exists) and the final component.
    pub fn split_dirname(&self) -> (r: (Option<MPath>, &MPathElement))
        requires
            self@.len() > 0,
        ensures
            r.1@ == self@.last(),
            match r.0 {
                None => self@.len() == 1,
                Some(d) => self@.len() > 1 && d@ == self@.drop_last() && (self.inv()
                    ==> d.inv()),
            },
    {
        let last = &self.elements[self.elements.len() - 1];
        if self.elements.len() == 1 {
            (None, last)
        } else {
            let d = MPath { elements: self.prefix_elements(self.elements.len() - 1) };
            proof {
                assert(self@.take(self@.len() - 1) =~= self@.drop_last());
                if self.inv() {
                    assert forall|i: int| 0 <= i < d@.len() implies valid_elem(d@[i]) by {
                        assert(d@[i] == self@[i]);
                    }
                }
            }
            (Some(d), last)
        }
    }

    /// The canonical serialized form: elements joined by single separators.
    pub fn to_vec(&self) -> (r: Vec<u8>)
        ensures
            r@ == canonical(self@),
    {
        let mut out: Vec<u8> = Vec::new();
        let mut i: usize = 0;
        proof {
            assert(self@.take(0) =~= Seq::<Seq<u8>>::empty());
        }
        while i < self.elements.len()
            invariant
                0 <= i <= self.elements@.len(),
                out@ == canonical(self@.take(i as int)),
            decreases self.elements@.len() - i,
        {
            let ghost before = out@;
            if i > 0 {
                out.push(SEPARATOR_BYTE);
            }
            out.extend_from_slice(self.elements[i].as_bytes());
            proof {
                let t = self@.take(i as int + 1);
                assert(t.drop_last() =~= self@.take(i as int));
                assert(t.last() == self@[i as int]);
                if i == 0 {
                    assert(out@ =~= t[0]);
                } else {
                    assert(canonical(t) == canonical(t.drop_last()) + seq![SEPARATOR_BYTE]
                        + t.last());
                    assert(out@ =~= before + seq![SEPARATOR_BYTE] + self@[i as int]);
                }
            }
            i = i + 1;
        }
        proof {
            assert(self@.take(self@.len() as int) =~= self@);
        }
        out
    }

    /// The length of this path in bytes, separators included; always equal
    /// to the length of the canonical serialized form.
    pub fn len(&self) -> (r: usize)
        requires
            self@.len() > 0,
            path_len(self@) <= usize::MAX,
        ensures
            r == path_len(self@),
            r == canonical(self@).len(),
    {
        let slashes = self.elements.len() - 1;
        let mut sum: usize = 0;
        let mut i: usize = 0;
        proof {
            assert(self@.take(0) =~= Seq::<Seq<u8>>::empty());
        }
        while i < self.elements.len()
            invariant
                0 <= i <= self.elements@.len(),
                self@.len() > 0,
                path_len(self@) <= usize::MAX,
                sum == total_elem_len(self@.take(i as int)),
            decreases self.elements@.len() - i,
        {
            proof {
                let t = self@.take(i as int + 1);
                assert(t.drop_last() =~= self@.take(i as int));
                assert(t.last() == self@[i as int]);
                lemma_total_elem_len_bounds(self@, i + 1);
            }
            sum = sum + self.elements[i].len();
            i = i + 1;
        }
        proof {
            assert(self@.take(self@.len() as int) =~= self@);
            lemma_canonical_len(self@);
        }
        slashes + sum
    }

    /// Append the given elements to a copy of this path, skipping any empty
    /// ones.
    pub fn join(&self, another: &Vec<MPathElement>) -> (r: MPath)
        ensures
            r@ == self@ + drop_empty(elems_view(another@)),
            self.inv() && all_valid_elems(drop_empty(elems_view(another@))) ==> r.inv(),
    {
        let mut elements = clone_elements(&self.elements);
        let mut more = filtered_elements(another);
        proof {
            assert(elems_view(elements@ + more@) =~= elems_view(elements@) + elems_view(more@));
        }
        elements.append(&mut more);
        let r = MPath { elements };
        proof {
            if self.inv() && all_valid_elems(drop_empty(elems_view(another@))) {
                assert forall|i: int| 0 <= i < r@.len() implies valid_elem(r@[i]) by {
                    if i < self@.len() {
                        assert(r@[i] == self@[i]);
                    } else {
                        assert(r@[i] == drop_empty(elems_view(another@))[i - self@.len()]);
                    }
                }
            }
        }
        r
    }

    /// Append one optional element to a copy of this path.
    pub fn join_element(&self, element: Option<&MPathElement>) -> (r: MPath)
        ensures
            match element {
                Some(e) => r@ == self@ + drop_empty(seq![e@]),
                None => r@ == self@,
            },
    {
        match element {
            Some(e) => {
                let v = vec![e.clone()];
                proof {
                    assert(elems_view(v@) =~= seq![e@]);
                }
                self.join(&v)
            },
            None => self.clone(),
        }
    }

    /// Join an optional path with further elements: nothing joined with no
    /// non-empty elements stays nothing.
    pub fn join_opt(path: Option<&MPath>, another: &Vec<MPathElement>) -> (r: Option<MPath>)
        ensures
            match path {
                Some(p) => r matches Some(q) && q@ == p@ + drop_empty(elems_view(another@)),
                None => {
                    if drop_empty(elems_view(another@)).len() == 0 {
                        r is None
                    } else {
                        r matches Some(q) && q@ == drop_empty(elems_view(another@))
                    }
                },
            },
    {
        match path {
            Some(p) => Some(p.join(another)),
            None => {
                let elements = filtered_elements(another);
                if elements.len() == 0 {
                    None
                } else {
                    Some(MPath { elements })
                }
            },
        }
    }

    /// Join an optional path with one element, which is kept even when the
    /// path side is nothing.
    pub fn join_opt_element(path: Option<&MPath>, element: &MPathElement) -> (r: MPath)
        ensures
            match path {
                Some(p) => r@ == p@ + drop_empty(seq![element@]),
                None => r@ == seq![element@],
            },
    {
        match path {
            Some(p) => p.join_element(Some(element)),
            None => {
                let elements = vec![element.clone()];
                proof {
                    assert(elems_view(elements@) =~= seq![element@]);
                }
                MPath { elements }
            },
        }
    }

    /// Join an optional path with an optional element.
    pub fn join_element_opt(path: Option<&MPath>, element: Option<&MPathElement>) -> (r: Option<
        MPath,
    >)
        ensures
            match element {
                Some(e) => (match path {
                    Some(p) => r matches Some(q) && q@ == p@ + drop_empty(seq![e@]),
                    None => {
                        if e@.len() == 0 {
                            r is None
                        } else {
                            r matches Some(q) && q@ == seq![e@]
                        }
                    },
                }),
                None => (match path {
                    Some(p) => r matches Some(q) && q@ == p@,
                    None => r is None,
                }),
            },
    {
        match element {
            Some(e) => {
                let v = vec![e.clone()];
                proof {
                    assert(elems_view(v@) =~= seq![e@]);
                    lemma_drop_empty_singleton(e@);
                }
                Self::join_opt(path, &v)
            },
            None => match path {
                Some(p) => Some(p.clone()),
                None => None,
            },
        }
    }

    /// The elements of an optional path, copied out; nothing has none.
    pub fn iter_opt(path: Option<&MPath>) -> (r: Vec<MPathElement>)
        ensures
            match path {
                Some(p) => elems_view(r@) == p@,
                None => r@.len() == 0,
            },
    {
        match path {
            Some(p) => clone_elements(&p.elements),
            None => Vec::new(),
        }
    }

    /// The elements of an optional path, taken by value.
    pub fn into_iter_opt(path: Option<MPath>) -> (r: Vec<MPathElement>)
        ensures
            match path {
                Some(p) => elems_view(r@) == p@,
                None => r@.len() == 0,
            },
    {
        match path {
            Some(p) => p.elements,
            None => Vec::new(),
        }
    }
}

/// A path within the repository together with its semantic role: the
/// repository root, a non-root directory, or a file.
#[derive(Clone, Debug, PartialEq, Eq, Hash)]
pub enum RepoPath {
    RootPath,
    DirectoryPath(MPath),
    FilePath(MPath),
}

impl RepoPath {
    /// The inner path's invariant, where the role carries one.
    pub open spec fn inv(&self) -> bool {
        match self {
            RepoPath::RootPath => true,
            RepoPath::DirectoryPath(p) => p.inv(),
            RepoPath::FilePath(p) => p.inv(),
        }
    }

    /// Byte length of the underlying path; the root has none.
    pub open spec fn spec_len(&self) -> int {
        match self {
            RepoPath::RootPath => 0,
            RepoPath::DirectoryPath(p) => path_len(p@),
            RepoPath::FilePath(p) => path_len(p@),
        }
    }

    /// The repository root.
    pub fn root() -> (r: Self)
        ensures
            r == RepoPath::RootPath,
    {
        RepoPath::RootPath
    }

    /// A directory path parsed from raw bytes.
    pub fn dir(path: &[u8]) -> (r: Result<Self, ErrorKind>)
        ensures
            match r {
                Ok(rp) => path_reject_reason(path@) is None && (rp
                    matches RepoPath::DirectoryPath(p) && p@ == split_path(path@) && p.inv()),
                Err(err) => {
                    &&& path_reject_reason(path@) is Some
                    &&& err matches ErrorKind::InvalidPath(raw, reason) && raw@ == path@
                        && path_reject_reason(path@) == Some(reason)
                },
            },
    {
        match MPath::new(path) {
            Ok(p) => Ok(RepoPath::DirectoryPath(p)),
            Err(e) => Err(e),
        }
    }

    /// A file path parsed from raw bytes.
    pub fn file(path: &[u8]) -> (r: Result<Self, ErrorKind>)
        ensures
            match r {
                Ok(rp) => path_reject_reason(path@) is None && (rp
                    matches RepoPath::FilePath(p) && p@ == split_path(path@) && p.inv()),
                Err(err) => {
                    &&& path_reject_reason(path@) is Some
                    &&& err matches ErrorKind::InvalidPath(raw, reason) && raw@ == path@
                        && path_reject_reason(path@) == Some(reason)
                },
            },
    {
        match MPath::new(path) {
            Ok(p) => Ok(RepoPath::FilePath(p)),
            Err(e) => Err(e),
        }
    }

    /// Whether this path is the repository root.
    pub fn is_root(&self) -> (r: bool)
        ensures
            r == (self matches RepoPath::RootPath),
    {
        match self {
            RepoPath::RootPath => true,
            _ => false,
        }
    }

    /// Whether this path is a directory other than the root.
    pub fn is_dir(&self) -> (r: bool)
        ensures
            r == (self matches RepoPath::DirectoryPath(_)),
    {
        match self {
            RepoPath::DirectoryPath(_) => true,
            _ => false,
        }
    }

    /// Whether this path is a tree: the root or another directory.
    pub fn is_tree(&self) -> (r: bool)
        ensures
            r == !(self matches RepoPath::FilePath(_)),
    {
        match self {
            RepoPath::RootPath => true,
            RepoPath::DirectoryPath(_) => true,
            _ => false,
        }
    }

    /// Whether this path is a file.
    pub fn is_file(&self) -> (r: bool)
        ensures
            r == (self matches RepoPath::FilePath(_)),
    {
        match self {
            RepoPath::FilePath(_) => true,
            _ => false,
        }
    }

    /// The length of this repo path in bytes; the root has length 0.
    pub fn len(&self) -> (r: usize)
        requires
            self.inv(),
            self.spec_len() <= usize::MAX,
        ensures
            r == self.spec_len(),
    {
        match self {
            RepoPath::RootPath => 0,
            RepoPath::DirectoryPath(path) => path.len(),
            RepoPath::FilePath(path) => path.len(),
        }
    }

    /// Borrow the underlying path; the root has none.
    pub fn mpath(&self) -> (r: Option<&MPath>)
        ensures
            match self {
                RepoPath::RootPath => r is None,
                RepoPath::DirectoryPath(p) => r matches Some(q) && q == p,
                RepoPath::FilePath(p) => r matches Some(q) && q == p,
            },
    {
        match self {
            RepoPath::RootPath => None,
            RepoPath::DirectoryPath(path) => Some(path),
            RepoPath::FilePath(path) => Some(path),
        }
    }

    /// Take the underlying path; the root has none.
    pub fn into_mpath(self) -> (r: Option<MPath>)
        ensures
            match self {
                RepoPath::RootPath => r is None,
                RepoPath::DirectoryPath(p) => r == Some(p),
                RepoPath::FilePath(p) => r == Some(p),
            },
    {
        match self {
            RepoPath::RootPath => None,
            RepoPath::DirectoryPath(path) => Some(path),
            RepoPath::FilePath(path) => Some(path),
        }
    }
}

/// The first component of the path parsed from a raw string; a helper for
/// building single elements from literals.
pub fn pel(path: &str) -> (r: MPathElement)
    requires
        path_reject_reason(path.spec_bytes()) is None,
    ensures
        r@ == split_path(path.spec_bytes())[0],
{
    let bytes = path.as_bytes();
    match MPath::new(bytes) {
        Ok(p) => {
            let mut els = p.elements;
            els.remove(0)
        },
        Err(_) => {
            proof {
                assert(false);
            }
            MPathElement(Vec::new())
        },
    }
}

/// Copy the non-empty elements, keeping their order.
fn filtered_elements(another: &Vec<MPathElement>) -> (r: Vec<MPathElement>)
    ensures
        elems_view(r@) == drop_empty(elems_view(another@)),
{
    let mut out: Vec<MPathElement> = Vec::new();
    let mut i: usize = 0;
    proof {
        assert(elems_view(another@).take(0) =~= Seq::<Seq<u8>>::empty());
    }
    while i < another.len()
        invariant
            0 <= i <= another@.len(),
            elems_view(out@) == drop_empty(elems_view(another@).take(i as int)),
        decreases another@.len() - i,
    {
        let ghost t = elems_view(another@).take(i as int + 1);
        proof {
            assert(t.drop_last() =~= elems_view(another@).take(i as int));
            assert(t.last() == another@[i as int]@);
        }
        if another[i].len() > 0 {
            let e = another[i].clone();
            out.push(e);
            proof {
                lemma_elems_view_push(out@.drop_last(), out@.last());
                assert(out@.drop_last().push(out@.last()) =~= out@);
                assert(drop_empty(t) == drop_empty(t.drop_last()).push(t.last()));
            }
        } else {
            proof {
                assert(drop_empty(t) == drop_empty(t.drop_last()));
            }
        }
        i = i + 1;
    }
    proof {
        assert(elems_view(another@).take(another@.len() as int) =~= elems_view(another@));
    }
    out
}

} // verus!
