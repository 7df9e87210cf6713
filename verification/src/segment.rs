//! The markup tokenizer: a document's text as an ordered sequence of tag and
//! literal segments whose raw texts, put back together, are the document.

use vstd::prelude::*;
use vstd::string::*;
use crate::error::DocxHandlebarsError;
use crate::text::{to_chars, from_chars};

verus! {

/// One piece of tokenized markup.
#[derive(Debug, Clone, PartialEq, Eq)]
pub enum Segment {
    /// Markup from a `<` through the next `>`.
    Tag {
        /// The tag as it stands in the document, angle brackets included.
        raw: String,
        /// An opening tag such as `<w:t>`.
        is_start: bool,
        /// A closing tag such as `</w:t>`.
        is_end: bool,
        /// A self-closing tag such as `<w:br/>`.
        is_empty: bool,
        /// The element name, without `<`, `/` or attributes.
        name: String,
    },
    /// Text between two tags, still escaped as in the document.
    Literal {
        /// The text as it stands in the document.
        text: String,
    },
}

/// The mathematical value of a [`Segment`].
pub enum SegmentSpec {
    Tag { raw: Seq<char>, is_start: bool, is_end: bool, is_empty: bool, name: Seq<char> },
    Literal { text: Seq<char> },
}

impl View for Segment {
    type V = SegmentSpec;

    open spec fn view(&self) -> SegmentSpec {
        match self {
            Segment::Tag { raw, is_start, is_end, is_empty, name } => SegmentSpec::Tag {
                raw: raw@,
                is_start: *is_start,
                is_end: *is_end,
                is_empty: *is_empty,
                name: name@,
            },
            Segment::Literal { text } => SegmentSpec::Literal { text: text@ },
        }
    }
}

impl SegmentSpec {
    /// The segment as it stands in the document.
    pub open spec fn raw_text(self) -> Seq<char> {
        match self {
            SegmentSpec::Tag { raw, .. } => raw,
            SegmentSpec::Literal { text } => text,
        }
    }

    /// An opening tag of the element `name`.
    pub open spec fn opens(self, name: Seq<char>) -> bool {
        self matches SegmentSpec::Tag { is_start, name: n, .. } && is_start && n == name
    }

    /// A closing tag of the element `name`.
    pub open spec fn closes(self, name: Seq<char>) -> bool {
        self matches SegmentSpec::Tag { is_end, name: n, .. } && is_end && n == name
    }
}

impl Segment {
    /// A copy of the segment.
    pub fn duplicate(&self) -> (copy: Segment)
        ensures
            copy@ == self@,
    {
        match self {
            Segment::Tag { raw, is_start, is_end, is_empty, name } => Segment::Tag {
                raw: raw.clone(),
                is_start: *is_start,
                is_end: *is_end,
                is_empty: *is_empty,
                name: name.clone(),
            },
            Segment::Literal { text } => Segment::Literal { text: text.clone() },
        }
    }

    /// A literal segment holding `text`.
    pub fn literal(text: &str) -> (seg: Segment)
        ensures
            seg@ == (SegmentSpec::Literal { text: text@ }),
    {
        Segment::Literal { text: String::from_str(text) }
    }

    /// The tag segment for the markup `raw`, classified by its shape.
    pub fn tag(raw: &str) -> (seg: Segment)
        ensures
            seg@ == tag_of(raw@),
    {
        let chars = to_chars(raw);
        classify_tag(&chars)
    }

    /// Whether this is an opening tag of the element `name`.
    pub fn is_opening(&self, name: &str) -> (r: bool)
        ensures
            r == self@.opens(name@),
    {
        match self {
            Segment::Tag { is_start, name: n, .. } => *is_start && *n == String::from_str(name),
            Segment::Literal { .. } => false,
        }
    }

    /// Whether this is a closing tag of the element `name`.
    pub fn is_closing(&self, name: &str) -> (r: bool)
        ensures
            r == self@.closes(name@),
    {
        match self {
            Segment::Tag { is_end, name: n, .. } => *is_end && *n == String::from_str(name),
            Segment::Literal { .. } => false,
        }
    }
}

/// The values of a sequence of segments.
pub open spec fn views(segs: Seq<Segment>) -> Seq<SegmentSpec> {
    Seq::new(segs.len(), |i: int| segs[i]@)
}

/// The raw texts of the segments, joined in order.
pub open spec fn serialized(segs: Seq<SegmentSpec>) -> Seq<char>
    decreases segs.len(),
{
    if segs.len() == 0 {
        Seq::empty()
    } else {
        serialized(segs.drop_last()) + segs.last().raw_text()
    }
}

/// The first position at or after `i` that holds `c`; the length of `s`
/// where there is none.
pub open spec fn next_index(s: Seq<char>, c: char, i: int) -> int
    decreases s.len() - i,
{
    if i >= s.len() {
        s.len() as int
    } else if s[i] == c {
        i
    } else {
        next_index(s, c, i + 1)
    }
}

/// Where the segment that starts at `i` ends (exclusive): a tag runs through
/// the next `>`, a literal up to the next `<`; either runs to the end of the
/// text where that character is missing.
pub open spec fn segment_end(s: Seq<char>, i: int) -> int {
    if s[i] == '<' {
        let k = next_index(s, '>', i + 1);
        if k < s.len() {
            k + 1
        } else {
            s.len() as int
        }
    } else {
        next_index(s, '<', i + 1)
    }
}

/// A character that ends an element name inside a tag.
pub open spec fn is_name_end(c: char) -> bool {
    c == ' ' || c == '\t' || c == '\n' || c == '\r' || c == '/' || c == '>'
}

/// The first position at or after `k` that ends an element name.
pub open spec fn name_end(raw: Seq<char>, k: int) -> int
    decreases raw.len() - k,
{
    if k >= raw.len() {
        raw.len() as int
    } else if is_name_end(raw[k]) {
        k
    } else {
        name_end(raw, k + 1)
    }
}

/// Whether the tag text begins with `</`.
pub open spec fn is_end_markup(raw: Seq<char>) -> bool {
    raw.len() >= 2 && raw[1] == '/'
}

/// Whether the tag text ends with `/>` and is not a closing tag.
pub open spec fn is_empty_markup(raw: Seq<char>) -> bool {
    !is_end_markup(raw) && raw.len() >= 3 && raw[raw.len() - 2] == '/'
}

/// Whether the tag text is a declaration, instruction or comment
/// (`<?...` or `<!...`).
pub open spec fn is_declaration_markup(raw: Seq<char>) -> bool {
    raw.len() >= 2 && (raw[1] == '?' || raw[1] == '!')
}

/// The element name inside the tag text.
pub open spec fn tag_name(raw: Seq<char>) -> Seq<char> {
    let start: int = if is_end_markup(raw) {
        2
    } else {
        1
    };
    if start >= raw.len() {
        Seq::empty()
    } else {
        raw.subrange(start, name_end(raw, start))
    }
}

/// The tag segment that the markup `raw` denotes.
pub open spec fn tag_of(raw: Seq<char>) -> SegmentSpec {
    SegmentSpec::Tag {
        raw,
        is_start: !is_end_markup(raw) && !is_empty_markup(raw) && !is_declaration_markup(raw),
        is_end: is_end_markup(raw),
        is_empty: is_empty_markup(raw),
        name: tag_name(raw),
    }
}

/// The segment that starts at `i` and ends before `e`.
pub open spec fn segment_at(s: Seq<char>, i: int, e: int) -> SegmentSpec {
    if s[i] == '<' {
        tag_of(s.subrange(i, e))
    } else {
        SegmentSpec::Literal { text: s.subrange(i, e) }
    }
}

/// The segments of `s` from position `i` on.
pub open spec fn tokens_from(s: Seq<char>, i: int) -> Seq<SegmentSpec>
    decreases s.len() - i,
{
    if i < 0 || i >= s.len() {
        Seq::empty()
    } else {
        let e = segment_end(s, i);
        if i < e <= s.len() {
            seq![segment_at(s, i, e)] + tokens_from(s, e)
        } else {
            Seq::empty()
        }
    }
}

/// The segments of the text `s`.
pub open spec fn tokens(s: Seq<char>) -> Seq<SegmentSpec> {
    tokens_from(s, 0)
}

/// A tag text that is closed by `>` and holds no second `<`.
pub open spec fn tag_closed(raw: Seq<char>) -> bool {
    raw.len() >= 2 && raw.last() == '>' && forall|k: int| 1 <= k < raw.len() ==> raw[k] != '<'
}

/// Every tag among the segments is closed.
pub open spec fn tags_closed(segs: Seq<SegmentSpec>) -> bool {
    forall|j: int|
        0 <= j < segs.len() ==> (#[trigger] segs[j] matches SegmentSpec::Tag { raw, .. }
            ==> tag_closed(raw))
}

/// The elements left open after one more segment, `None` where a closing tag
/// does not match the innermost open element.
pub open spec fn nesting_step(open: Seq<Seq<char>>, seg: SegmentSpec) -> Option<Seq<Seq<char>>> {
    match seg {
        SegmentSpec::Literal { .. } => Some(open),
        SegmentSpec::Tag { is_start, is_end, name, .. } => {
            if is_start {
                Some(open.push(name))
            } else if is_end {
                if open.len() > 0 && open.last() == name {
                    Some(open.drop_last())
                } else {
                    None
                }
            } else {
                Some(open)
            }
        },
    }
}

/// The names of the elements that are open after the segments, outermost
/// first; `None` where a closing tag came without its opening tag.
pub open spec fn open_elements(segs: Seq<SegmentSpec>) -> Option<Seq<Seq<char>>>
    decreases segs.len(),
{
    if segs.len() == 0 {
        Some(Seq::empty())
    } else {
        match open_elements(segs.drop_last()) {
            None => None,
            Some(open) => nesting_step(open, segs.last()),
        }
    }
}

/// Every opening tag has its closing tag, properly nested.
pub open spec fn balanced(segs: Seq<SegmentSpec>) -> bool {
    open_elements(segs) == Some(Seq::<Seq<char>>::empty())
}

/// Markup that the tokenizer accepts: no tag is cut short or holds a second
/// `<`, and the elements are balanced.
pub open spec fn well_formed(s: Seq<char>) -> bool {
    tags_closed(tokens(s)) && balanced(tokens(s))
}

/// The position that [`next_index`] gives lies between `i` and the end, holds
/// `c` where it is not the end, and no position before it does.
pub proof fn lemma_next_index_bounds(s: Seq<char>, c: char, i: int)
    requires
        0 <= i <= s.len(),
    ensures
        i <= next_index(s, c, i) <= s.len(),
        next_index(s, c, i) < s.len() ==> s[next_index(s, c, i)] == c,
        forall|j: int| i <= j < next_index(s, c, i) ==> s[j] != c,
    decreases s.len() - i,
{
    if i < s.len() && s[i] != c {
        lemma_next_index_bounds(s, c, i + 1);
    }
}

/// A segment is not empty and ends inside the text.
pub proof fn lemma_segment_end_bounds(s: Seq<char>, i: int)
    requires
        0 <= i < s.len(),
    ensures
        i < segment_end(s, i) <= s.len(),
{
    lemma_next_index_bounds(s, '>', i + 1);
    lemma_next_index_bounds(s, '<', i + 1);
}

/// The position that [`name_end`] gives lies between `k` and the end, and no
/// position from `k` up to it ends a name.
pub proof fn lemma_name_end_bounds(raw: Seq<char>, k: int)
    requires
        0 <= k <= raw.len(),
    ensures
        k <= name_end(raw, k) <= raw.len(),
        forall|j: int| k <= j < name_end(raw, k) ==> !is_name_end(raw[j]),
    decreases raw.len() - k,
{
    if k < raw.len() && !is_name_end(raw[k]) {
        lemma_name_end_bounds(raw, k + 1);
    }
}

/// Joining segments distributes over appending one sequence to another.
pub proof fn lemma_serialized_concat(a: Seq<SegmentSpec>, b: Seq<SegmentSpec>)
    ensures
        serialized(a + b) == serialized(a) + serialized(b),
    decreases b.len(),
{
    if b.len() == 0 {
        assert(a + b =~= a);
        assert(serialized(a) + serialized(b) =~= serialized(a));
    } else {
        assert((a + b).drop_last() =~= a + b.drop_last());
        assert((a + b).last() == b.last());
        lemma_serialized_concat(a, b.drop_last());
        assert(serialized(a + b) =~= serialized(a) + serialized(b));
    }
}

proof fn lemma_tokens_from_round_trip(s: Seq<char>, i: int)
    requires
        0 <= i <= s.len(),
    ensures
        serialized(tokens_from(s, i)) == s.subrange(i, s.len() as int),
    decreases s.len() - i,
{
    if i >= s.len() {
        assert(s.subrange(i, s.len() as int) =~= Seq::<char>::empty());
    } else {
        lemma_segment_end_bounds(s, i);
        let e = segment_end(s, i);
        let first = seq![segment_at(s, i, e)];
        lemma_tokens_from_round_trip(s, e);
        lemma_serialized_concat(first, tokens_from(s, e));
        assert(first.drop_last() =~= Seq::<SegmentSpec>::empty());
        assert(first.last().raw_text() == s.subrange(i, e));
        assert(serialized(first.drop_last()) =~= Seq::<char>::empty());
        assert(serialized(first) =~= s.subrange(i, e));
        assert(s.subrange(i, e) + s.subrange(e, s.len() as int) =~= s.subrange(i, s.len() as int));
    }
}

/// Tokenizing a text and joining the raw texts of its segments gives the
/// text back, character for character.
pub proof fn lemma_round_trip(s: Seq<char>)
    ensures
        serialized(tokens(s)) == s,
{
    lemma_tokens_from_round_trip(s, 0);
    assert(s.subrange(0, s.len() as int) =~= s);
}

/// The characters `v[from..to]` as a vector of their own.
fn copy_range(v: &Vec<char>, from: usize, to: usize) -> (r: Vec<char>)
    requires
        from <= to <= v.len(),
    ensures
        r@ == v@.subrange(from as int, to as int),
{
    let mut r: Vec<char> = Vec::new();
    let mut i: usize = from;
    while i < to
        invariant
            from <= i <= to <= v.len(),
            r@ == v@.subrange(from as int, i as int),
        decreases to - i,
    {
        r.push(v[i]);
        i += 1;
        assert(v@.subrange(from as int, i as int) =~= v@.subrange(from as int, i - 1).push(
            v@[i - 1],
        ));
    }
    r
}

/// The first position at or after `from` that holds `c`.
fn index_of(v: &Vec<char>, c: char, from: usize) -> (k: usize)
    requires
        from <= v.len(),
    ensures
        k == next_index(v@, c, from as int),
        from <= k <= v.len(),
{
    let mut k: usize = from;
    while k < v.len() && v[k] != c
        invariant
            from <= k <= v.len(),
            next_index(v@, c, from as int) == next_index(v@, c, k as int),
        decreases v.len() - k,
    {
        k += 1;
    }
    k
}

fn is_name_end_char(c: char) -> (r: bool)
    ensures
        r == is_name_end(c),
{
    c == ' ' || c == '\t' || c == '\n' || c == '\r' || c == '/' || c == '>'
}

/// The tag segment for the markup `raw`.
fn classify_tag(raw: &Vec<char>) -> (seg: Segment)
    ensures
        seg@ == tag_of(raw@),
{
    let n = raw.len();
    let is_end = n >= 2 && raw[1] == '/';
    let is_empty = !is_end && n >= 3 && raw[n - 2] == '/';
    let is_declaration = n >= 2 && (raw[1] == '?' || raw[1] == '!');
    let start: usize = if is_end { 2 } else { 1 };
    let name = if start >= n {
        String::new()
    } else {
        let mut k: usize = start;
        while k < n && !is_name_end_char(raw[k])
            invariant
                start <= k <= n,
                n == raw.len(),
                name_end(raw@, start as int) == name_end(raw@, k as int),
            decreases n - k,
        {
            k += 1;
        }
        let piece = copy_range(raw, start, k);
        from_chars(&piece)
    };
    Segment::Tag {
        raw: from_chars(raw),
        is_start: !is_end && !is_empty && !is_declaration,
        is_end,
        is_empty,
        name,
    }
}

/// Whether the tag text is closed by `>` and holds no second `<`.
fn check_tag_closed(raw: &Vec<char>) -> (r: bool)
    ensures
        r == tag_closed(raw@),
{
    let n = raw.len();
    if n < 2 || raw[n - 1] != '>' {
        return false;
    }
    let k = index_of(raw, '<', 1);
    proof {
        lemma_next_index_bounds(raw@, '<', 1);
    }
    k == n
}

/// The views of a stack of element names.
pub open spec fn name_views(names: Seq<String>) -> Seq<Seq<char>> {
    Seq::new(names.len(), |k: int| names[k]@)
}

/// The description carried by the error for a tag that is cut short or
/// holds a second `<`.
pub open spec fn unclosed_tag_message() -> Seq<char> {
    "a tag is not closed"@
}

/// The description carried by the error for elements that are not balanced.
pub open spec fn unbalanced_message() -> Seq<char> {
    "the elements are not balanced"@
}

/// Splits markup into its segments.
///
/// Succeeds exactly on well-formed markup; the segments are then those that
/// [`tokens`] describes, so their raw texts join to the input. Markup with a
/// tag that is cut short, or with elements that do not balance, is rejected.
pub fn tokenize(xml: &str) -> (r: std::result::Result<Vec<Segment>, DocxHandlebarsError>)
    ensures
        r is Ok <==> well_formed(xml@),
        r matches Ok(segs) ==> views(segs@) == tokens(xml@),
        r matches Err(e) ==> (e matches DocxHandlebarsError::Xml(d) && d@ == (if !tags_closed(
            tokens(xml@),
        ) {
            unclosed_tag_message()
        } else {
            unbalanced_message()
        })),
{
    let chars = to_chars(xml);
    let n = chars.len();
    let mut out: Vec<Segment> = Vec::new();
    let mut open: Vec<String> = Vec::new();
    let mut closed = true;
    let mut nested = true;
    let mut i: usize = 0;
    assert(views(out@) + tokens_from(chars@, 0) =~= tokens(chars@));
    assert(views(out@) =~= Seq::<SegmentSpec>::empty());
    assert(name_views(open@) =~= Seq::<Seq<char>>::empty());
    while i < n
        invariant
            i <= n,
            n == chars.len(),
            chars@ == xml@,
            views(out@) + tokens_from(chars@, i as int) == tokens(chars@),
            closed == tags_closed(views(out@)),
            nested == (open_elements(views(out@)) is Some),
            nested ==> open_elements(views(out@)) == Some(name_views(open@)),
        decreases n - i,
    {
        let ghost before = views(out@);
        let ghost open_before = name_views(open@);
        let is_tag = chars[i] == '<';
        let e: usize = if is_tag {
            let k = index_of(&chars, '>', i + 1);
            if k < n {
                k + 1
            } else {
                n
            }
        } else {
            index_of(&chars, '<', i + 1)
        };
        proof {
            lemma_segment_end_bounds(chars@, i as int);
        }
        let piece = copy_range(&chars, i, e);
        let seg = if is_tag {
            if !check_tag_closed(&piece) {
                closed = false;
            }
            let seg = classify_tag(&piece);
            if nested {
                match &seg {
                    Segment::Tag { is_start, is_end, name, .. } => {
                        if *is_start {
                            open.push(name.clone());
                            assert(name_views(open@) =~= open_before.push(name@));
                        } else if *is_end {
                            if open.len() > 0 && open[open.len() - 1] == *name {
                                open.pop();
                                assert(name_views(open@) =~= open_before.drop_last());
                            } else {
                                nested = false;
                            }
                        }
                    },
                    Segment::Literal { .. } => {},
                }
            }
            seg
        } else {
            Segment::Literal { text: from_chars(&piece) }
        };
        proof {
            let after = before.push(seg@);
            assert(seg@ == segment_at(chars@, i as int, e as int));
            assert(after.drop_last() =~= before);
            assert(after.last() == seg@);
            assert(after + tokens_from(chars@, e as int) =~= before + tokens_from(
                chars@,
                i as int,
            ));
            assert(tags_closed(after) == (tags_closed(before) && (seg@ matches SegmentSpec::Tag {
                raw,
                ..
            } ==> tag_closed(raw)))) by {
                if tags_closed(after) {
                    assert(after[after.len() - 1] == seg@);
                    assert forall|j: int| 0 <= j < before.len() implies (
                    #[trigger] before[j] matches SegmentSpec::Tag { raw, .. } ==> tag_closed(
                        raw,
                    )) by {
                        assert(after[j] == before[j]);
                    }
                } else if tags_closed(before) {
                    let j = choose|j: int|
                        0 <= j < after.len() && !(#[trigger] after[j] matches SegmentSpec::Tag {
                            raw,
                            ..
                        } ==> tag_closed(raw));
                    if j < before.len() {
                        assert(after[j] == before[j]);
                    }
                }
            }
        }
        out.push(seg);
        assert(views(out@) =~= before.push(out@[out.len() - 1]@));
        i = e;
    }
    assert(tokens_from(chars@, n as int) =~= Seq::<SegmentSpec>::empty());
    assert(views(out@) =~= tokens(chars@));
    if !closed {
        Err(DocxHandlebarsError::Xml(String::from_str("a tag is not closed")))
    } else if nested && open.len() == 0 {
        assert(name_views(open@) =~= Seq::<Seq<char>>::empty());
        Ok(out)
    } else {
        Err(DocxHandlebarsError::Xml(String::from_str("the elements are not balanced")))
    }
}

/// Joins the raw texts of the segments, in order.
pub fn serialize(segs: &Vec<Segment>) -> (s: String)
    ensures
        s@ == serialized(views(segs@)),
{
    let mut s = String::new();
    let mut i: usize = 0;
    while i < segs.len()
        invariant
            i <= segs.len(),
            s@ == serialized(views(segs@).take(i as int)),
        decreases segs.len() - i,
    {
        proof {
            let next = views(segs@).take(i + 1);
            assert(next.drop_last() =~= views(segs@).take(i as int));
            assert(next.last() == segs@[i as int]@);
        }
        match &segs[i] {
            Segment::Tag { raw, .. } => s.append(raw.as_str()),
            Segment::Literal { text } => s.append(text.as_str()),
        }
        i += 1;
    }
    assert(views(segs@).take(segs.len() as int) =~= views(segs@));
    s
}

} // verus!
