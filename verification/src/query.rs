//! The query of an incoming connection: which tags it names.

use vstd::prelude::*;
use vstd::string::StrSliceExecFns;

verus! {

/// The character that separates the tag names in a query.
pub const TAG_SEPARATOR: char = ',';

/// `s` cut at every `sep`: the pieces between the separators, in order. There
/// is one piece more than there are separators, and a piece may be empty.
pub open spec fn split_on(s: Seq<char>, sep: char) -> Seq<Seq<char>>
    decreases s.len(),
{
    if s.len() == 0 {
        seq![Seq::empty()]
    } else if s.last() == sep {
        split_on(s.drop_last(), sep).push(Seq::empty())
    } else {
        let pieces = split_on(s.drop_last(), sep);
        pieces.drop_last().push(pieces.last().push(s.last()))
    }
}

/// How often `sep` stands in `s`.
pub open spec fn count_of(s: Seq<char>, sep: char) -> nat
    decreases s.len(),
{
    if s.len() == 0 {
        0
    } else if s.last() == sep {
        count_of(s.drop_last(), sep) + 1
    } else {
        count_of(s.drop_last(), sep)
    }
}

/// The pieces put together again, with one `sep` between each two.
pub open spec fn join_with(pieces: Seq<Seq<char>>, sep: char) -> Seq<char>
    decreases pieces.len(),
{
    if pieces.len() == 0 {
        Seq::empty()
    } else if pieces.len() == 1 {
        pieces[0]
    } else {
        join_with(pieces.drop_last(), sep).push(sep) + pieces.last()
    }
}

/// No piece holds a `sep`.
pub open spec fn free_of(pieces: Seq<Seq<char>>, sep: char) -> bool {
    forall|i: int, j: int| 0 <= i < pieces.len() && 0 <= j < pieces[i].len() ==> pieces[i][j] != sep
}

/// The tag names that a `tags` parameter stands for. A parameter that is
/// absent or empty names no tag; any other text is cut at the separators.
pub open spec fn query_tags(tags: Option<Seq<char>>) -> Seq<Seq<char>> {
    match tags {
        None => Seq::empty(),
        Some(text) => if text.len() == 0 {
            Seq::empty()
        } else {
            split_on(text, TAG_SEPARATOR)
        },
    }
}

/// The parameters of a connection's query, as they arrive.
pub struct QueryParams {
    /// The tag names, separated by commas, if the parameter is there.
    pub tags: Option<String>,
}

impl View for QueryParams {
    type V = Option<Seq<char>>;

    open spec fn view(&self) -> Option<Seq<char>> {
        match self.tags {
            Some(text) => Some(text@),
            None => None,
        }
    }
}

/// A connection's query, taken apart.
pub struct Query {
    /// The tag names, in the order in which the query gave them.
    pub tags: Vec<String>,
}

impl View for Query {
    type V = Seq<Seq<char>>;

    open spec fn view(&self) -> Seq<Seq<char>> {
        self.tags.deep_view()
    }
}

/// Cutting a text that is one character longer: a separator opens a new,
/// empty piece; any other character is added to the last piece.
proof fn lemma_split_step(s: Seq<char>, sep: char, i: int, done: Seq<Seq<char>>, start: int)
    requires
        0 <= start <= i < s.len(),
        split_on(s.take(i), sep) == done.push(s.subrange(start, i)),
    ensures
        s[i] == sep ==> split_on(s.take(i + 1), sep) == done.push(s.subrange(start, i)).push(
            s.subrange(i + 1, i + 1),
        ),
        s[i] != sep ==> split_on(s.take(i + 1), sep) == done.push(s.subrange(start, i + 1)),
{
    let longer = s.take(i + 1);
    let pieces = done.push(s.subrange(start, i));
    assert(longer.drop_last() =~= s.take(i));
    assert(longer.last() == s[i]);
    if s[i] == sep {
        assert(s.subrange(i + 1, i + 1) =~= Seq::<char>::empty());
    } else {
        assert(pieces.drop_last() =~= done);
        assert(pieces.last().push(s[i]) =~= s.subrange(start, i + 1));
    }
}

/// The pieces of `text` between its commas, of which an empty text has one.
pub fn split_tags(text: &str) -> (tags: Vec<String>)
    ensures
        tags.deep_view() == split_on(text@, TAG_SEPARATOR),
{
    let n = text.unicode_len();
    let mut tags: Vec<String> = Vec::new();
    let mut start: usize = 0;
    let mut i: usize = 0;
    proof {
        assert(text@.take(0) =~= Seq::<char>::empty());
        assert(tags.deep_view().push(text@.subrange(0, 0)) =~= seq![Seq::<char>::empty()]);
    }
    for c in it: text.chars()
        invariant
            n == text@.len(),
            i == it.index(),
            it.seq() == text@,
            start <= i <= n,
            split_on(text@.take(i as int), TAG_SEPARATOR) == tags.deep_view().push(
                text@.subrange(start as int, i as int),
            ),
    {
        proof {
            lemma_split_step(text@, TAG_SEPARATOR, i as int, tags.deep_view(), start as int);
        }
        if c == TAG_SEPARATOR {
            let ghost done = tags.deep_view();
            tags.push(text.substring_char(start, i).to_owned());
            proof {
                assert(tags.deep_view() =~= done.push(text@.subrange(start as int, i as int)));
            }
            start = i + 1;
        }
        i += 1;
    }
    let ghost done = tags.deep_view();
    tags.push(text.substring_char(start, i).to_owned());
    proof {
        assert(text@.take(i as int) =~= text@);
        assert(tags.deep_view() =~= done.push(text@.subrange(start as int, i as int)));
    }
    tags
}

/// Takes a connection's query apart into the tag names it gives.
pub fn parse_query(query: QueryParams) -> (r: Query)
    ensures
        r@ == query_tags(query@),
{
    let tags = match query.tags {
        Some(text) => {
            if text.as_str().is_empty() {
                Vec::new()
            } else {
                split_tags(text.as_str())
            }
        },
        None => Vec::new(),
    };
    proof {
        if query@ is None || query@->0.len() == 0 {
            assert(tags.deep_view() =~= Seq::<Seq<char>>::empty());
        }
    }
    Query { tags }
}

/// Cutting gives one piece more than there are separators, so never none.
pub proof fn lemma_split_has_one_piece_more(s: Seq<char>, sep: char)
    ensures
        split_on(s, sep).len() == count_of(s, sep) + 1,
        split_on(s, sep).len() >= 1,
    decreases s.len(),
{
    if s.len() > 0 {
        lemma_split_has_one_piece_more(s.drop_last(), sep);
    }
}

/// No piece of a cut text holds the separator.
pub proof fn lemma_split_pieces_are_free(s: Seq<char>, sep: char)
    ensures
        free_of(split_on(s, sep), sep),
    decreases s.len(),
{
    if s.len() > 0 {
        lemma_split_pieces_are_free(s.drop_last(), sep);
        lemma_split_has_one_piece_more(s.drop_last(), sep);
    }
}

/// Joining the pieces of a cut text with the separator gives the text back.
pub proof fn lemma_split_joins_back(s: Seq<char>, sep: char)
    ensures
        join_with(split_on(s, sep), sep) == s,
    decreases s.len(),
{
    if s.len() == 0 {
        assert(join_with(split_on(s, sep), sep) =~= s);
    } else {
        let front = s.drop_last();
        let pieces = split_on(front, sep);
        lemma_split_joins_back(front, sep);
        lemma_split_has_one_piece_more(front, sep);
        if s.last() == sep {
            let all = pieces.push(Seq::empty());
            assert(all.drop_last() =~= pieces);
            assert(join_with(all, sep) =~= s);
        } else {
            let all = pieces.drop_last().push(pieces.last().push(s.last()));
            if pieces.len() == 1 {
                assert(join_with(all, sep) =~= s);
            } else {
                assert(all.drop_last() =~= pieces.drop_last());
                assert(join_with(all, sep) =~= join_with(pieces, sep).push(s.last()));
                assert(join_with(all, sep) =~= s);
            }
        }
    }
}

/// A text is cut in one way only: pieces that hold no separator and join to
/// the text are the pieces that cutting gives.
pub proof fn lemma_split_is_unique(s: Seq<char>, sep: char, pieces: Seq<Seq<char>>)
    requires
        pieces.len() >= 1,
        free_of(pieces, sep),
        join_with(pieces, sep) == s,
    ensures
        pieces == split_on(s, sep),
    decreases s.len(),
{
    let last = pieces.last();
    if pieces.len() == 1 {
        assert(s == last);
    } else {
        assert(s == join_with(pieces.drop_last(), sep).push(sep) + last);
    }
    if s.len() == 0 {
        if pieces.len() > 1 {
            assert(s.len() == join_with(pieces.drop_last(), sep).len() + 1 + last.len());
        }
        assert(pieces[0] =~= Seq::<char>::empty());
        assert(pieces =~= seq![Seq::<char>::empty()]);
    } else if s.last() == sep {
        if last.len() > 0 {
            assert(s.last() == last[last.len() - 1]);
        }
        assert(last =~= Seq::<char>::empty());
        let front = pieces.drop_last();
        assert(join_with(front, sep) =~= s.drop_last());
        lemma_split_is_unique(s.drop_last(), sep, front);
        assert(pieces =~= front.push(Seq::empty()));
    } else {
        assert(last.len() > 0);
        assert(s.last() == last[last.len() - 1]);
        let shorter = pieces.drop_last().push(last.drop_last());
        assert(shorter.drop_last() =~= pieces.drop_last());
        assert(join_with(shorter, sep) =~= s.drop_last());
        assert forall|i: int, j: int| 0 <= i < shorter.len() && 0 <= j < shorter[i].len() implies shorter[i][j]
            != sep by {
            if i < shorter.len() - 1 {
                assert(shorter[i] == pieces[i]);
            } else {
                assert(shorter[i][j] == pieces[i][j]);
            }
        }
        lemma_split_is_unique(s.drop_last(), sep, shorter);
        assert(last.drop_last().push(s.last()) =~= last);
        assert(pieces =~= shorter.drop_last().push(shorter.last().push(s.last())));
    }
}

} // verus!
