//! Category paths: an ordered list of segments, written with `::` between
//! them.

use vstd::prelude::*;
use vstd::string::StringExecFns;
use core::cmp::Ordering;
use crate::text::{lex_le, text_before};

verus! {

/// Why a text could not be read as a category.
#[derive(Clone, Copy, Debug, PartialEq, Eq, Structural)]
pub enum ParseError {
    /// The text was empty.
    EmptyInput,
}

/// A position in the classification tree. The empty path stands for
/// "uncategorized". Paths are ordered segment by segment, a path before
/// every path that it begins.
#[derive(Debug, Hash, Ord)]
pub struct Category {
    fields: Vec<String>,
}

/// How one value stands to another in an order.
#[derive(Clone, Copy, Debug, PartialEq, Eq, Structural)]
pub enum Rank {
    Before,
    Same,
    After,
}

/// How the text `a` stands to the text `b` in the order of the dictionary.
pub open spec fn text_rank(a: Seq<char>, b: Seq<char>) -> Rank {
    if a == b {
        Rank::Same
    } else if lex_le(a, b) {
        Rank::Before
    } else {
        Rank::After
    }
}

/// How the path `a` stands to the path `b`: the first segments in which
/// they differ decide, and a path stands before every path that it begins.
pub open spec fn path_rank(a: Seq<Seq<char>>, b: Seq<Seq<char>>) -> Rank
    decreases a.len(),
{
    if a.len() == 0 {
        if b.len() == 0 {
            Rank::Same
        } else {
            Rank::Before
        }
    } else if b.len() == 0 {
        Rank::After
    } else if a[0] == b[0] {
        path_rank(a.skip(1), b.skip(1))
    } else {
        text_rank(a[0], b[0])
    }
}

/// The two characters that stand between the segments of a written path.
pub open spec fn separator() -> Seq<char> {
    seq![':', ':']
}

/// The segments of `s[start..]`, split at each separator found from the left,
/// where no separator begins in `start..i`.
pub open spec fn split_from(s: Seq<char>, start: int, i: int) -> Seq<Seq<char>>
    decreases s.len() - i,
{
    if i + 1 >= s.len() {
        seq![s.subrange(start, s.len() as int)]
    } else if s[i] == ':' && s[i + 1] == ':' {
        seq![s.subrange(start, i)] + split_from(s, i + 2, i + 2)
    } else {
        split_from(s, start, i + 1)
    }
}

/// The segments of a written path: the text between the separators, which
/// are taken from the left and do not overlap.
pub open spec fn split(s: Seq<char>) -> Seq<Seq<char>> {
    split_from(s, 0, 0)
}

/// The tokens written one after the other with `sep` between neighbours.
pub open spec fn join(tokens: Seq<Seq<char>>, sep: Seq<char>) -> Seq<char>
    decreases tokens.len(),
{
    if tokens.len() == 0 {
        Seq::empty()
    } else if tokens.len() == 1 {
        tokens[0]
    } else {
        tokens[0] + sep + join(tokens.skip(1), sep)
    }
}

/// The character sequences of a list of strings.
pub open spec fn texts(tokens: Seq<String>) -> Seq<Seq<char>> {
    tokens.map_values(|s: String| s@)
}

/// The written form of a path: nothing for the empty path, else its segments
/// joined by the separator.
pub open spec fn written(path: Seq<Seq<char>>) -> Option<Seq<char>> {
    if path.len() == 0 {
        None
    } else {
        Some(join(path, separator()))
    }
}

/// Whether a separator begins at position `i` of `text`.
pub open spec fn separator_at(text: Seq<char>, i: int) -> bool {
    0 <= i && i + 1 < text.len() && text[i] == ':' && text[i + 1] == ':'
}

/// Whether a separator begins somewhere inside `segment`.
pub open spec fn holds_separator(segment: Seq<char>) -> bool {
    exists|i: int| separator_at(segment, i)
}

/// Whether reading the written form of `path` gives `path` back: no segment
/// holds a separator, none but the last ends in a colon, and the written
/// form is not empty.
pub open spec fn survives_writing(path: Seq<Seq<char>>) -> bool {
    &&& path.len() >= 1
    &&& !(path.len() == 1 && path[0].len() == 0)
    &&& forall|k: int| 0 <= k < path.len() ==> !holds_separator(#[trigger] path[k])
    &&& forall|k: int|
        0 <= k < path.len() - 1 ==> (#[trigger] path[k]).len() == 0 || path[k].last() != ':'
}

/// Appending one token to a list appends the separator and the token to the
/// joined text, unless the list was empty.
pub proof fn lemma_join_push(tokens: Seq<Seq<char>>, sep: Seq<char>, token: Seq<char>)
    ensures
        join(tokens.push(token), sep) == if tokens.len() == 0 {
            token
        } else {
            join(tokens, sep) + sep + token
        },
    decreases tokens.len(),
{
    let all = tokens.push(token);
    if tokens.len() == 0 {
    } else if tokens.len() == 1 {
        assert(all.skip(1) =~= seq![token]);
        assert(join(all.skip(1), sep) == token);
    } else {
        lemma_join_push(tokens.skip(1), sep, token);
        assert(all.skip(1) =~= tokens.skip(1).push(token));
        assert(tokens[0] + sep + (join(tokens.skip(1), sep) + sep + token) =~= (tokens[0] + sep
            + join(tokens.skip(1), sep)) + sep + token);
    }
}

/// Scanning a segment that holds no separator, and that is followed by one
/// or by the end of the text, yields that segment.
proof fn lemma_scan_segment(s: Seq<char>, start: int, i: int, end: int)
    requires
        0 <= start <= i <= end <= s.len(),
        !holds_separator(s.subrange(start, end)),
        end == s.len() || (end + 1 < s.len() && s[end] == ':' && s[end + 1] == ':' && (end
            == start || s[end - 1] != ':')),
    ensures
        split_from(s, start, i) == if end == s.len() {
            seq![s.subrange(start, end)]
        } else {
            seq![s.subrange(start, end)] + split_from(s, end + 2, end + 2)
        },
    decreases end - i,
{
    if i + 1 >= s.len() {
    } else if i == end {
    } else {
        let segment = s.subrange(start, end);
        if s[i] == ':' && s[i + 1] == ':' {
            if i + 1 < end {
                assert(separator_at(segment, i - start));
                assert(holds_separator(segment));
            }
            assert(false);
        }
        lemma_scan_segment(s, start, i + 1, end);
    }
}

/// Reading, from `start`, a text whose rest is the written form of `path`
/// gives `path`.
proof fn lemma_split_join(s: Seq<char>, start: int, path: Seq<Seq<char>>)
    requires
        0 <= start <= s.len(),
        path.len() >= 1,
        s.skip(start) == join(path, separator()),
        forall|k: int| 0 <= k < path.len() ==> !holds_separator(#[trigger] path[k]),
        forall|k: int|
            0 <= k < path.len() - 1 ==> (#[trigger] path[k]).len() == 0 || path[k].last() != ':',
    ensures
        split_from(s, start, start) == path,
    decreases path.len(),
{
    let rest = s.skip(start);
    let head = path[0];
    if path.len() == 1 {
        assert(s.subrange(start, s.len() as int) =~= head);
        lemma_scan_segment(s, start, start, s.len() as int);
        assert(seq![head] =~= path);
    } else {
        let tail = path.skip(1);
        let end = start + head.len();
        assert(rest == head + separator() + join(tail, separator()));
        assert(rest.len() == head.len() + 2 + join(tail, separator()).len());
        assert(s.subrange(start, end) =~= head) by {
            assert forall|j: int| 0 <= j < head.len() implies s[start + j] == head[j] by {
                assert(rest[j] == head[j]);
            }
        }
        assert(s[end] == ':') by {
            assert(rest[end - start] == ':');
        }
        assert(s[end + 1] == ':') by {
            assert(rest[end - start + 1] == ':');
        }
        if head.len() > 0 {
            assert(s[end - 1] == head.last()) by {
                assert(rest[end - start - 1] == head.last());
            }
        }
        assert(s.skip(end + 2) =~= join(tail, separator())) by {
            assert forall|j: int| 0 <= j < join(tail, separator()).len() implies s[end + 2 + j]
                == join(tail, separator())[j] by {
                assert(rest[end - start + 2 + j] == join(tail, separator())[j]);
            }
        }
        assert forall|k: int| 0 <= k < tail.len() implies !holds_separator(#[trigger] tail[k]) by {
            assert(tail[k] == path[k + 1]);
        }
        assert forall|k: int| 0 <= k < tail.len() - 1 implies (#[trigger] tail[k]).len() == 0
            || tail[k].last() != ':' by {
            assert(tail[k] == path[k + 1]);
        }
        lemma_split_join(s, end + 2, tail);
        lemma_scan_segment(s, start, start, end);
        assert(seq![head] + tail =~= path);
    }
}

/// Reading the written form of a path gives the path back, for every path
/// whose segments hold no separator and, but for the last, do not end in a
/// colon.
pub proof fn lemma_parse_written(path: Seq<Seq<char>>)
    requires
        survives_writing(path),
    ensures
        written(path) matches Some(text) && text.len() > 0 && split(text) == path,
{
    let text = join(path, separator());
    assert(text.skip(0) =~= text);
    lemma_split_join(text, 0, path);
    if path.len() > 1 {
        assert(text == path[0] + separator() + join(path.skip(1), separator()));
        assert(text.len() >= 2);
    }
}

/// Whether the segment at `k` keeps the written form of `path` from being
/// read back: it holds a separator, or it is not the last and ends in a
/// colon.
pub open spec fn spoils(path: Seq<Seq<char>>, k: int) -> bool {
    0 <= k < path.len() && (holds_separator(path[k]) || (k < path.len() - 1 && path[k].len() > 0
        && path[k].last() == ':'))
}

/// Where a separator begins at `q`, the first segment that a scan from `i`
/// yields ends at `q` or before it.
proof fn lemma_first_segment_short(s: Seq<char>, start: int, i: int, q: int)
    requires
        0 <= start <= i <= q,
        separator_at(s, q),
    ensures
        split_from(s, start, i).len() >= 1,
        split_from(s, start, i)[0].len() <= q - start,
    decreases q - i,
{
    if s[i] == ':' && s[i + 1] == ':' {
    } else {
        lemma_first_segment_short(s, start, i + 1, q);
    }
}

/// Reading, from `start`, a text whose rest is the written form of a path
/// with a segment that spoils it does not give the path.
proof fn lemma_split_join_fails(s: Seq<char>, start: int, path: Seq<Seq<char>>, k: int)
    requires
        0 <= start <= s.len(),
        s.skip(start) == join(path, separator()),
        spoils(path, k),
    ensures
        split_from(s, start, start) != path,
    decreases path.len(),
{
    let rest = s.skip(start);
    let head = path[0];
    let end = start + head.len();
    if path.len() == 1 {
        assert(s.subrange(start, s.len() as int) =~= head);
        let i = choose|i: int| separator_at(head, i);
        assert(s[start + i] == rest[i] && s[start + i + 1] == rest[i + 1]);
        assert(separator_at(s, start + i));
        lemma_first_segment_short(s, start, start, start + i);
    } else {
        let tail = path.skip(1);
        assert(rest == head + separator() + join(tail, separator()));
        assert(rest.len() == head.len() + 2 + join(tail, separator()).len());
        assert(s.subrange(start, end) =~= head) by {
            assert forall|j: int| 0 <= j < head.len() implies s[start + j] == head[j] by {
                assert(rest[j] == head[j]);
            }
        }
        assert(s[end] == ':') by {
            assert(rest[end - start] == ':');
        }
        assert(s[end + 1] == ':') by {
            assert(rest[end - start + 1] == ':');
        }
        if holds_separator(head) {
            let i = choose|i: int| separator_at(head, i);
            assert(s[start + i] == rest[i] && s[start + i + 1] == rest[i + 1]);
            assert(separator_at(s, start + i));
            lemma_first_segment_short(s, start, start, start + i);
        } else if head.len() > 0 && head.last() == ':' {
            assert(s[end - 1] == ':') by {
                assert(rest[end - start - 1] == head.last());
            }
            assert(separator_at(s, end - 1));
            lemma_first_segment_short(s, start, start, end - 1);
        } else {
            assert(k >= 1);
            assert(s.skip(end + 2) =~= join(tail, separator())) by {
                assert forall|j: int| 0 <= j < join(tail, separator()).len() implies s[end + 2
                    + j] == join(tail, separator())[j] by {
                    assert(rest[end - start + 2 + j] == join(tail, separator())[j]);
                }
            }
            assert(tail[k - 1] == path[k]);
            assert(spoils(tail, k - 1));
            lemma_split_join_fails(s, end + 2, tail, k - 1);
            lemma_scan_segment(s, start, start, end);
            let read = split_from(s, end + 2, end + 2);
            if seq![head] + read == path {
                assert((seq![head] + read).skip(1) =~= read);
                assert(false);
            }
        }
    }
}

/// Every other path with a segment is lost in writing: its written form
/// is empty, or reading it gives another path.
pub proof fn lemma_parse_written_fails(path: Seq<Seq<char>>)
    requires
        path.len() >= 1,
        !survives_writing(path),
    ensures
        join(path, separator()).len() == 0 || split(join(path, separator())) != path,
{
    let text = join(path, separator());
    if path.len() == 1 && path[0].len() == 0 {
    } else {
        if exists|k: int| 0 <= k < path.len() && holds_separator(#[trigger] path[k]) {
            let k = choose|k: int| 0 <= k < path.len() && holds_separator(#[trigger] path[k]);
            assert(text.skip(0) =~= text);
            lemma_split_join_fails(text, 0, path, k);
        } else {
            let k = choose|k: int|
                0 <= k < path.len() - 1 && !((#[trigger] path[k]).len() == 0 || path[k].last()
                    != ':');
            assert(text.skip(0) =~= text);
            lemma_split_join_fails(text, 0, path, k);
        }
    }
}

/// Joins the tokens with `sep` between neighbours.
pub fn collect_tokens(tokens: &Vec<String>, sep: &str) -> (sentence: String)
    ensures
        sentence@ == join(texts(tokens@), sep@),
{
    let mut sentence = String::new();
    let mut i: usize = 0;
    if tokens.len() > 0 {
        sentence.append(tokens[0].as_str());
        i = 1;
        assert(texts(tokens@).take(1) =~= seq![tokens@[0]@]);
        assert(sentence@ =~= tokens@[0]@);
    } else {
        assert(texts(tokens@).take(0) =~= Seq::<Seq<char>>::empty());
    }
    while i < tokens.len()
        invariant
            i <= tokens.len(),
            tokens.len() > 0 ==> i >= 1,
            sentence@ == join(texts(tokens@).take(i as int), sep@),
        decreases tokens.len() - i,
    {
        proof {
            let done = texts(tokens@).take(i as int);
            lemma_join_push(done, sep@, tokens@[i as int]@);
            assert(texts(tokens@).take(i + 1) =~= done.push(tokens@[i as int]@));
        }
        sentence.append(sep);
        sentence.append(tokens[i].as_str());
        i += 1;
    }
    assert(texts(tokens@).take(tokens.len() as int) =~= texts(tokens@));
    sentence
}

/// Joins the words of a sentence with single spaces.
pub fn collect_sentence(tokens: &Vec<String>) -> (sentence: String)
    ensures
        sentence@ == join(texts(tokens@), seq![' ']),
{
    proof {
        reveal_strlit(" ");
        assert(" "@ =~= seq![' ']);
    }
    collect_tokens(tokens, " ")
}

impl Category {
    /// The segments of the path, outermost first.
    pub closed spec fn view(&self) -> Seq<Seq<char>> {
        texts(self.fields@)
    }

    /// The empty path.
    pub fn new() -> (c: Category)
        ensures
            c@ == Seq::<Seq<char>>::empty(),
    {
        let c = Category { fields: Vec::new() };
        assert(c@ =~= Seq::<Seq<char>>::empty());
        c
    }

    /// Reads a written path. Only the empty text is refused: a text with
    /// nothing between two separators gives an empty segment.
    pub fn parse(s: &str) -> (r: Result<Category, ParseError>)
        ensures
            s@.len() == 0 ==> r == Err::<Category, ParseError>(ParseError::EmptyInput),
            s@.len() > 0 ==> r is Ok && r->Ok_0@ == split(s@),
    {
        let n = s.unicode_len();
        if n == 0 {
            return Err(ParseError::EmptyInput);
        }
        let mut fields: Vec<String> = Vec::new();
        let mut start: usize = 0;
        let mut i: usize = 0;
        assert(texts(fields@) + split_from(s@, 0, 0) =~= split(s@));
        while i < n - 1
            invariant
                n == s@.len(),
                n >= 1,
                start <= i <= n,
                texts(fields@) + split_from(s@, start as int, i as int) == split(s@),
            decreases n - i,
        {
            if s.get_char(i) == ':' && s.get_char(i + 1) == ':' {
                let segment = String::from_str(s.substring_char(start, i));
                proof {
                    assert(texts(fields@.push(segment)) =~= texts(fields@).push(segment@));
                    assert(texts(fields@).push(segment@) + split_from(s@, i + 2, i + 2) =~= texts(
                        fields@,
                    ) + (seq![segment@] + split_from(s@, i + 2, i + 2)));
                }
                fields.push(segment);
                i = i + 2;
                start = i;
            } else {
                i = i + 1;
            }
        }
        let segment = String::from_str(s.substring_char(start, n));
        proof {
            assert(texts(fields@.push(segment)) =~= texts(fields@).push(segment@));
            assert(texts(fields@).push(segment@) =~= texts(fields@) + seq![segment@]);
        }
        fields.push(segment);
        Ok(Category { fields })
    }

    /// The written form of the path, or nothing for the empty path.
    pub fn to_text(&self) -> (r: Option<String>)
        ensures
            r is Some <==> self@.len() > 0,
            r matches Some(text) ==> written(self@) == Some(text@),
    {
        if self.fields.len() == 0 {
            None
        } else {
            proof {
                reveal_strlit("::");
                assert("::"@ =~= separator());
            }
            Some(collect_tokens(&self.fields, "::"))
        }
    }

    /// The segments of the path, outermost first.
    pub fn tokens(&self) -> (r: &Vec<String>)
        ensures
            texts(r@) == self@,
    {
        &self.fields
    }

    /// Whether this is the empty path.
    pub fn is_empty(&self) -> (r: bool)
        ensures
            r == (self@.len() == 0),
    {
        self.fields.len() == 0
    }

    /// The number of segments.
    pub fn depth(&self) -> (r: usize)
        ensures
            r == self@.len(),
    {
        self.fields.len()
    }

    /// The segment at `index`, counted from the outermost.
    pub fn index(&self, index: usize) -> (r: &String)
        requires
            index < self@.len(),
        ensures
            r@ == self@[index as int],
    {
        &self.fields[index]
    }

    /// Removes the outermost segment and returns it; the rest moves up one
    /// level. The empty path gives nothing and stays empty.
    pub fn take_top_category(&mut self) -> (r: Option<String>)
        ensures
            old(self)@.len() == 0 ==> r is None && final(self)@ == old(self)@,
            old(self)@.len() > 0 ==> r is Some && r->Some_0@ == old(self)@[0] && final(self)@
                == old(self)@.skip(1),
    {
        if self.fields.len() == 0 {
            None
        } else {
            let top = self.fields.remove(0);
            assert(self@ =~= old(self)@.skip(1));
            Some(top)
        }
    }

    /// Appends a segment below the last.
    pub fn add_subcategory(&mut self, s: String)
        ensures
            final(self)@ == old(self)@.push(s@),
    {
        self.fields.push(s);
        assert(self@ =~= old(self)@.push(s@));
    }

    /// The path one level below this one, under `s`.
    pub fn with_subcategory(self, s: String) -> (r: Category)
        ensures
            r@ == self@.push(s@),
    {
        let mut c = self;
        c.add_subcategory(s);
        c
    }

    /// How this path stands to `other` in the order of paths.
    pub fn rank(&self, other: &Category) -> (r: Rank)
        ensures
            r == path_rank(self@, other@),
    {
        let mut i: usize = 0;
        assert(self@.skip(0) =~= self@ && other@.skip(0) =~= other@);
        while i < self.fields.len() && i < other.fields.len()
            invariant
                i <= self.fields.len(),
                i <= other.fields.len(),
                path_rank(self@, other@) == path_rank(self@.skip(i as int), other@.skip(i as int)),
            decreases self.fields.len() - i,
        {
            proof {
                assert(self@.skip(i as int)[0] == self.fields@[i as int]@);
                assert(other@.skip(i as int)[0] == other.fields@[i as int]@);
                assert(self@.skip(i as int).skip(1) =~= self@.skip(i + 1));
                assert(other@.skip(i as int).skip(1) =~= other@.skip(i + 1));
            }
            if self.fields[i] != other.fields[i] {
                if text_before(&self.fields[i], &other.fields[i]) {
                    return Rank::Before;
                } else {
                    return Rank::After;
                }
            }
            i += 1;
        }
        if i < other.fields.len() {
            Rank::Before
        } else if i < self.fields.len() {
            Rank::After
        } else {
            Rank::Same
        }
    }

    /// Whether the two paths have the same segments in the same order.
    pub fn same_path(&self, other: &Category) -> (r: bool)
        ensures
            r == (self@ == other@),
    {
        if self.fields.len() != other.fields.len() {
            return false;
        }
        let mut i: usize = 0;
        while i < self.fields.len()
            invariant
                i <= self.fields.len(),
                self.fields.len() == other.fields.len(),
                forall|k: int| 0 <= k < i ==> self@[k] == other@[k],
            decreases self.fields.len() - i,
        {
            if self.fields[i] != other.fields[i] {
                assert(self@[i as int] != other@[i as int]);
                return false;
            }
            i += 1;
        }
        assert(self@ =~= other@);
        true
    }
}

impl Default for Category {
    /// The empty path.
    fn default() -> (c: Category)
        ensures
            c@ == Seq::<Seq<char>>::empty(),
    {
        Category::new()
    }
}

impl Clone for Category {
    fn clone(&self) -> (r: Category)
        ensures
            r@ == self@,
    {
        let mut fields: Vec<String> = Vec::new();
        let mut i: usize = 0;
        while i < self.fields.len()
            invariant
                i <= self.fields.len(),
                texts(fields@) == self@.take(i as int),
            decreases self.fields.len() - i,
        {
            let s = self.fields[i].clone();
            proof {
                assert(self@[i as int] == s@);
                assert(texts(fields@.push(s)) =~= texts(fields@).push(s@));
                assert(self@.take(i as int).push(s@) =~= self@.take(i + 1));
            }
            fields.push(s);
            i += 1;
        }
        assert(self@.take(self.fields.len() as int) =~= self@);
        Category { fields }
    }
}

impl PartialEq for Category {
    fn eq(&self, other: &Category) -> (r: bool) {
        self.same_path(other)
    }
}

impl vstd::std_specs::cmp::PartialEqSpecImpl for Category {
    open spec fn obeys_eq_spec() -> bool {
        true
    }

    open spec fn eq_spec(&self, other: &Category) -> bool {
        self@ == other@
    }
}

impl Eq for Category {

}

impl PartialOrd for Category {
    fn partial_cmp(&self, other: &Category) -> (r: Option<Ordering>) {
        match self.rank(other) {
            Rank::Before => Some(Ordering::Less),
            Rank::Same => Some(Ordering::Equal),
            Rank::After => Some(Ordering::Greater),
        }
    }
}

impl vstd::std_specs::cmp::PartialOrdSpecImpl for Category {
    open spec fn obeys_partial_cmp_spec() -> bool {
        true
    }

    open spec fn partial_cmp_spec(&self, other: &Category) -> Option<Ordering> {
        match path_rank(self@, other@) {
            Rank::Before => Some(Ordering::Less),
            Rank::Same => Some(Ordering::Equal),
            Rank::After => Some(Ordering::Greater),
        }
    }
}

impl From<Category> for Option<String> {
    /// The written form of the path, or nothing for the empty path.
    fn from(c: Category) -> (r: Option<String>)
        ensures
            r is Some <==> c@.len() > 0,
            r matches Some(text) ==> written(c@) == Some(text@),
    {
        c.to_text()
    }
}

impl vstd::std_specs::convert::FromSpecImpl<Category> for Option<String> {
    /// The result of `from` is stated by its own clauses, over the text that
    /// the string holds; it is not tied to `from_spec`, since no clause can
    /// say which string holds a text.
    open spec fn obeys_from_spec() -> bool {
        false
    }

    /// A string that holds the written form of the path, or nothing for the
    /// empty path.
    open spec fn from_spec(c: Category) -> Option<String> {
        if c@.len() == 0 {
            None
        } else {
            Some(choose|text: String| written(c@) == Some(text@))
        }
    }
}

impl std::str::FromStr for Category {
    type Err = ParseError;

    /// Reads a written path, as `parse` does.
    fn from_str(s: &str) -> (r: Result<Category, ParseError>)
        ensures
            s@.len() == 0 ==> r == Err::<Category, ParseError>(ParseError::EmptyInput),
            s@.len() > 0 ==> r is Ok && r->Ok_0@ == split(s@),
    {
        Category::parse(s)
    }
}

} // verus!
