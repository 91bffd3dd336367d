use crate::error::RewriterError;
use crate::text::decode_utf8_bytes;
use vstd::prelude::*;
use vstd::slice::slice_subrange;
use vstd::utf8::*;

verus! {

/// A half-open byte range `[start, end)` in the document buffer.
#[derive(Clone, Copy, Debug, PartialEq, Eq, Structural)]
pub struct TextRange {
    pub start: usize,
    pub end: usize,
}

/// A half-open range in edit coordinates, which are `u32`.
#[derive(Clone, Copy, Debug, PartialEq, Eq, Structural)]
pub struct Span {
    pub start: u32,
    pub end: u32,
}

/// Largest offset an edit can hold.
pub const SPAN_MAX: usize = 0xffff_ffff;

/// One attribute of a tag: where its key is, and where its value is, if any
/// (a boolean attribute has none).
#[derive(Clone, Copy, Debug)]
pub struct Attribute {
    pub key: TextRange,
    pub value: Option<TextRange>,
}

/// A tag node, read from a parsed tree.
#[derive(Clone, Debug)]
pub struct Tag {
    /// The tag's name.
    pub name: TextRange,
    /// Its attributes, in source order.
    pub attributes: Vec<Attribute>,
    /// First byte of the tag's markup.
    pub start: usize,
    /// Last byte of the tag's markup, as the parser reports it.
    pub end: usize,
    /// The markup between the opening and the closing tag.
    pub inner: TextRange,
    /// The first child, where that child is raw text.
    pub first_raw_child: Option<TextRange>,
}

/// The source buffer, and the tags of its parsed tree in document order.
#[derive(Clone, Debug)]
pub struct Document {
    pub data: Vec<u8>,
    pub tags: Vec<Tag>,
}

impl TextRange {
    pub open spec fn within(self, len: nat) -> bool {
        self.start <= self.end && self.end <= len
    }
}

impl Span {
    pub open spec fn of(start: int, end: int) -> Span {
        Span { start: start as u32, end: end as u32 }
    }
}

impl Attribute {
    /// Key and value lie in the buffer, the value after the key.
    pub open spec fn within(self, len: nat) -> bool {
        &&& self.key.within(len)
        &&& self.value is Some ==> self.value->Some_0.within(len) && self.key.end <= self.value->Some_0.start
    }
}

/// A span lies in a buffer of `len` bytes, start before end.
pub open spec fn span_within(s: Span, len: nat) -> bool {
    s.start <= s.end && s.end <= len
}

impl Tag {
    pub open spec fn wf(&self, len: nat) -> bool {
        &&& self.name.within(len)
        &&& forall|i: int| 0 <= i < self.attributes@.len() ==> #[trigger] self.attributes@[i].within(len)
        &&& self.start <= self.end
        &&& self.end < len
        &&& self.inner.within(len)
        &&& self.first_raw_child is Some ==> self.first_raw_child->Some_0.within(len)
    }
}

/// The span of a range, or `RangeOverflow` where it does not fit in `u32`.
pub open spec fn span_of(r: TextRange) -> Result<Span, RewriterError> {
    if r.start <= SPAN_MAX && r.end <= SPAN_MAX {
        Ok(Span::of(r.start as int, r.end as int))
    } else {
        Err(RewriterError::RangeOverflow)
    }
}

/// The span of a whole tag, ending just past the parser's end position.
pub open spec fn boundaries_of(t: Tag) -> Result<Span, RewriterError> {
    if t.start <= SPAN_MAX && t.end < SPAN_MAX {
        Ok(Span::of(t.start as int, t.end + 1))
    } else {
        Err(RewriterError::RangeOverflow)
    }
}

/// Computes `span_of`.
pub fn calculate_bounds(r: TextRange) -> (res: Result<Span, RewriterError>)
    ensures
        res == span_of(r),
{
    if r.start <= SPAN_MAX && r.end <= SPAN_MAX {
        Ok(Span { start: r.start as u32, end: r.end as u32 })
    } else {
        Err(RewriterError::RangeOverflow)
    }
}

/// Computes `boundaries_of`.
pub fn boundaries(t: &Tag) -> (res: Result<Span, RewriterError>)
    ensures
        res == boundaries_of(*t),
{
    if t.start <= SPAN_MAX && t.end < SPAN_MAX {
        Ok(Span { start: t.start as u32, end: (t.end + 1) as u32 })
    } else {
        Err(RewriterError::RangeOverflow)
    }
}

impl Document {
    pub open spec fn wf(&self) -> bool {
        forall|i: int| 0 <= i < self.tags@.len() ==> #[trigger] self.tags@[i].wf(self.data@.len())
    }

    /// The bytes a range covers.
    pub open spec fn bytes(&self, r: TextRange) -> Seq<u8> {
        self.data@.subrange(r.start as int, r.end as int)
    }

    /// Whether a range holds valid UTF-8.
    pub open spec fn valid(&self, r: TextRange) -> bool {
        valid_utf8(self.bytes(r))
    }

    /// The text a range holds.
    pub open spec fn text(&self, r: TextRange) -> Seq<char> {
        decode_utf8(self.bytes(r))
    }

    /// Decodes a range as text.
    pub fn decode(&self, r: TextRange) -> (res: Result<String, RewriterError>)
        requires
            r.within(self.data@.len()),
        ensures
            res is Ok <==> self.valid(r),
            res is Ok ==> res->Ok_0@ == self.text(r),
            res is Err ==> res->Err_0 == RewriterError::NotUtf8,
    {
        let b = slice_subrange(self.data.as_slice(), r.start, r.end);
        match decode_utf8_bytes(b) {
            Some(s) => Ok(s),
            None => Err(RewriterError::NotUtf8),
        }
    }
}

fn range_within(r: TextRange, len: usize) -> (ok: bool)
    ensures
        ok == r.within(len as nat),
{
    r.start <= r.end && r.end <= len
}

impl Tag {
    /// Computes `wf`.
    pub fn is_well_formed(&self, len: usize) -> (ok: bool)
        ensures
            ok == self.wf(len as nat),
    {
        if !range_within(self.name, len) || !range_within(self.inner, len) || self.start > self.end || self.end >= len {
            return false;
        }
        if let Some(c) = self.first_raw_child {
            if !range_within(c, len) {
                return false;
            }
        }
        let mut j: usize = 0;
        while j < self.attributes.len()
            invariant
                j <= self.attributes@.len(),
                forall|m: int| 0 <= m < j ==> #[trigger] self.attributes@[m].within(len as nat),
            decreases self.attributes@.len() - j,
        {
            let a = self.attributes[j];
            if !range_within(a.key, len) {
                assert(!self.attributes@[j as int].within(len as nat));
                return false;
            }
            if let Some(v) = a.value {
                if !range_within(v, len) || a.key.end > v.start {
                    assert(!self.attributes@[j as int].within(len as nat));
                    return false;
                }
            }
            j = j + 1;
        }
        true
    }
}

impl Document {
    /// Computes `wf`.
    pub fn is_well_formed(&self) -> (ok: bool)
        ensures
            ok == self.wf(),
    {
        let mut i: usize = 0;
        while i < self.tags.len()
            invariant
                i <= self.tags@.len(),
                forall|m: int| 0 <= m < i ==> #[trigger] self.tags@[m].wf(self.data@.len()),
            decreases self.tags@.len() - i,
        {
            if !self.tags[i].is_well_formed(self.data.len()) {
                return false;
            }
            i = i + 1;
        }
        true
    }
}

} // verus!
