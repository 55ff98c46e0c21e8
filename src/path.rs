//! Dotted field paths.

use vstd::prelude::*;

use crate::text::{split_on, split_text};

verus! {

/// Whether one of `parts` is empty.
pub open spec fn has_empty_part(parts: Seq<Seq<char>>) -> bool {
    exists|j: int| 0 <= j < parts.len() && (#[trigger] parts[j]).len() == 0
}

/// The segments that the dotted text `s` names: the pieces between the dots,
/// or no segment at all when `s` is empty or one of its pieces is.
pub open spec fn parse_path(s: Seq<char>) -> Seq<Seq<char>> {
    let parts = split_on(s, '.');
    if has_empty_part(parts) {
        Seq::empty()
    } else {
        parts
    }
}

/// The segments `segs` written with a dot between each two.
pub open spec fn join_dots(segs: Seq<Seq<char>>) -> Seq<char>
    decreases segs.len(),
{
    if segs.len() == 0 {
        Seq::empty()
    } else if segs.len() == 1 {
        segs[0]
    } else {
        join_dots(segs.drop_last()) + seq!['.'] + segs.last()
    }
}

/// Whether `s` can stand as a segment of a dotted path: it is not empty and
/// holds no dot.
pub open spec fn plain_segment(s: Seq<char>) -> bool {
    s.len() > 0 && !s.contains('.')
}

/// Splitting never gives an empty list of pieces.
pub proof fn lemma_split_len(s: Seq<char>, sep: char)
    ensures
        split_on(s, sep).len() >= 1,
    decreases s.len(),
{
    if s.len() > 0 {
        lemma_split_len(s.drop_last(), sep);
    }
}

/// Splitting at a separator splits the two sides apart.
pub proof fn lemma_split_concat(x: Seq<char>, y: Seq<char>, sep: char)
    ensures
        split_on(x + seq![sep] + y, sep) == split_on(x, sep) + split_on(y, sep),
    decreases y.len(),
{
    let z = x + seq![sep] + y;
    if y.len() == 0 {
        assert(z.drop_last() =~= x);
        assert(split_on(x, sep).push(Seq::<char>::empty()) =~= split_on(x, sep) + split_on(y, sep));
    } else {
        let y1 = y.drop_last();
        assert(z.drop_last() =~= x + seq![sep] + y1);
        lemma_split_concat(x, y1, sep);
        lemma_split_len(y1, sep);
        let f = split_on(x, sep);
        let g = split_on(y1, sep);
        if y.last() == sep {
            assert((f + g).push(Seq::<char>::empty()) =~= f + g.push(Seq::<char>::empty()));
        } else {
            let c = y.last();
            assert((f + g).update((f + g).len() - 1, (f + g).last().push(c)) =~= f + g.update(
                g.len() - 1,
                g.last().push(c),
            ));
        }
    }
}

/// A text without the separator splits into itself alone.
pub proof fn lemma_split_plain(x: Seq<char>, sep: char)
    requires
        !x.contains(sep),
    ensures
        split_on(x, sep) == seq![x],
    decreases x.len(),
{
    if x.len() == 0 {
        assert(x =~= Seq::<char>::empty());
    } else {
        let x1 = x.drop_last();
        assert forall|i: int| 0 <= i < x1.len() implies x1[i] != sep by {
            assert(x[i] == x1[i]);
        }
        assert(x[x.len() - 1] == x.last());
        lemma_split_plain(x1, sep);
        assert(x1.push(x.last()) =~= x);
        assert(seq![x1].update(0, x1.push(x.last())) =~= seq![x]);
    }
}

/// Plain segments joined with dots read back as the same segments.
pub proof fn lemma_parse_joined(segs: Seq<Seq<char>>)
    requires
        segs.len() > 0,
        forall|i: int| 0 <= i < segs.len() ==> plain_segment(#[trigger] segs[i]),
    ensures
        split_on(join_dots(segs), '.') == segs,
        parse_path(join_dots(segs)) == segs,
    decreases segs.len(),
{
    if segs.len() == 1 {
        lemma_split_plain(segs[0], '.');
        assert(seq![segs[0]] =~= segs);
    } else {
        let front = segs.drop_last();
        assert forall|i: int| 0 <= i < front.len() implies plain_segment(#[trigger] front[i]) by {
            assert(front[i] == segs[i]);
        }
        lemma_parse_joined(front);
        assert(plain_segment(segs[segs.len() - 1]));
        lemma_split_concat(join_dots(front), segs.last(), '.');
        lemma_split_plain(segs.last(), '.');
        assert(front + seq![segs.last()] =~= segs);
    }
    assert(!has_empty_part(segs)) by {
        assert forall|j: int| 0 <= j < segs.len() implies (#[trigger] segs[j]).len() != 0 by {
            assert(plain_segment(segs[j]));
        }
    }
}

/// A field path: the names of a field and of the nested fields leading to it,
/// outermost first. A path of no segments selects nothing.
pub struct Path {
    pub segments: Vec<String>,
}

impl View for Path {
    type V = Seq<Seq<char>>;

    open spec fn view(&self) -> Seq<Seq<char>> {
        Seq::new(self.segments@.len(), |i: int| self.segments@[i]@)
    }
}

impl Path {
    /// The path of no segments.
    pub fn empty() -> (r: Path)
        ensures
            r@ == Seq::<Seq<char>>::empty(),
    {
        let r = Path { segments: Vec::new() };
        assert(r@ =~= Seq::<Seq<char>>::empty());
        r
    }

    /// Reads a dotted path such as `"profile.bio"`. Malformed text (empty, or
    /// with an empty segment) gives the empty path.
    pub fn parse(text: &str) -> (r: Path)
        ensures
            r@ == parse_path(text@),
    {
        let parts = split_text(text, '.');
        let mut segments: Vec<String> = Vec::new();
        let mut i: usize = 0;
        while i < parts.len()
            invariant
                parts@.len() == split_on(text@, '.').len(),
                forall|j: int| 0 <= j < parts@.len() ==> #[trigger] parts@[j]@ == split_on(text@, '.')[j],
                i <= parts@.len(),
                segments@.len() == i,
                forall|j: int| 0 <= j < i ==> #[trigger] segments@[j]@ == parts@[j]@,
                forall|j: int| 0 <= j < i ==> (#[trigger] parts@[j]@).len() > 0,
            decreases parts@.len() - i,
        {
            let part = parts[i];
            if part.unicode_len() == 0 {
                assert(split_on(text@, '.')[i as int].len() == 0);
                return Path::empty();
            }
            segments.push(part.to_owned());
            i = i + 1;
        }
        let r = Path { segments };
        assert(r@ =~= split_on(text@, '.'));
        r
    }

    /// The path with the given segments, taken as they are.
    pub fn from_segments(parts: &[&str]) -> (r: Path)
        ensures
            r@ == Seq::new(parts@.len(), |i: int| parts@[i]@),
    {
        let mut segments: Vec<String> = Vec::new();
        let mut i: usize = 0;
        while i < parts.len()
            invariant
                i <= parts@.len(),
                segments@.len() == i,
                forall|j: int| 0 <= j < i ==> #[trigger] segments@[j]@ == parts@[j]@,
            decreases parts@.len() - i,
        {
            segments.push(parts[i].to_owned());
            i = i + 1;
        }
        let r = Path { segments };
        assert(r@ =~= Seq::new(parts@.len(), |i: int| parts@[i]@));
        r
    }

    /// The path written as dotted text, such as `"profile.bio"`.
    pub fn to_dotted(&self) -> (r: String)
        ensures
            r@ == join_dots(self@),
    {
        let mut out = String::new();
        let mut i: usize = 0;
        while i < self.segments.len()
            invariant
                i <= self@.len(),
                out@ == join_dots(self@.take(i as int)),
            decreases self@.len() - i,
        {
            assert(self@.take(i + 1).drop_last() =~= self@.take(i as int));
            if i > 0 {
                out.append(".");
                proof {
                    reveal_strlit(".");
                }
            }
            out.append(self.segments[i].as_str());
            assert(self@.take(i + 1).last() == self.segments@[i as int]@);
            assert(i == 0 ==> out@ =~= join_dots(self@.take(i + 1)));
            i = i + 1;
        }
        assert(self@.take(self@.len() as int) =~= self@);
        out
    }

    /// The number of segments.
    pub fn len(&self) -> (r: usize)
        ensures
            r == self@.len(),
    {
        self.segments.len()
    }

    /// Whether the path has no segment.
    pub fn is_empty(&self) -> (r: bool)
        ensures
            r == (self@.len() == 0),
    {
        self.segments.len() == 0
    }

    /// The first segment, if there is one.
    pub fn head(&self) -> (r: Option<&String>)
        ensures
            self@.len() == 0 ==> r is None,
            self@.len() > 0 ==> r is Some && r->0@ == self@[0],
    {
        if self.segments.len() == 0 {
            None
        } else {
            Some(&self.segments[0])
        }
    }

    /// The path without its first segment; the empty path stays empty.
    pub fn tail(&self) -> (r: Path)
        ensures
            self@.len() == 0 ==> r@.len() == 0,
            self@.len() > 0 ==> r@ == self@.drop_first(),
    {
        let mut segments: Vec<String> = Vec::new();
        let mut i: usize = 1;
        while i < self.segments.len()
            invariant
                1 <= i,
                self@.len() > 0 ==> i <= self@.len(),
                self@.len() == 0 ==> i == 1,
                segments@.len() == i - 1,
                forall|j: int| 0 <= j < i - 1 ==> #[trigger] segments@[j]@ == self@[j + 1],
            decreases self@.len() - i,
        {
            segments.push(self.segments[i].clone());
            i = i + 1;
        }
        let r = Path { segments };
        if self.segments.len() > 0 {
            assert(r@ =~= self@.drop_first());
        }
        r
    }
}

} // verus!
