//! The query language: words, `AND`, `OR` and `NOT`, and field filters of
//! the form `field:value`.

use crate::cursor::{first_colon, first_colon_at, has_colon, lemma_first_colon};
use crate::error::ErrorKind;
use crate::text::{chars_eq, chars_range, str_chars};
use vstd::prelude::*;

verus! {

/// What one word of a query asks of a frame.
#[derive(Clone, Debug)]
pub enum Atom {
    /// The text holds the word.
    Term(Vec<char>),
    /// One of the tags is the value.
    Tag(Vec<char>),
    /// One of the labels is the value.
    Label(Vec<char>),
    /// The track is the value.
    Track(Vec<char>),
    /// The URI is the value.
    Uri(Vec<char>),
    /// The URI begins with the value.
    Scope(Vec<char>),
}

/// The mathematical content of an [`Atom`].
pub enum AtomView {
    Term(Seq<char>),
    Tag(Seq<char>),
    Label(Seq<char>),
    Track(Seq<char>),
    Uri(Seq<char>),
    Scope(Seq<char>),
}

impl View for Atom {
    type V = AtomView;

    open spec fn view(&self) -> AtomView {
        match self {
            Atom::Term(v) => AtomView::Term(v@),
            Atom::Tag(v) => AtomView::Tag(v@),
            Atom::Label(v) => AtomView::Label(v@),
            Atom::Track(v) => AtomView::Track(v@),
            Atom::Uri(v) => AtomView::Uri(v@),
            Atom::Scope(v) => AtomView::Scope(v@),
        }
    }
}

/// An atom, or its negation.
#[derive(Clone, Debug)]
pub struct Literal {
    pub negated: bool,
    pub atom: Atom,
}

/// The mathematical content of a [`Literal`].
pub struct LiteralView {
    pub negated: bool,
    pub atom: AtomView,
}

impl View for Literal {
    type V = LiteralView;

    open spec fn view(&self) -> LiteralView {
        LiteralView { negated: self.negated, atom: self.atom@ }
    }
}

/// A query: a frame matches where it meets every literal of one of the
/// clauses; a query without clauses is met by every frame.
#[derive(Clone, Debug)]
pub struct Query {
    pub clauses: Vec<Vec<Literal>>,
}

/// The content of each literal of a clause.
pub open spec fn clause_view(clause: Seq<Literal>) -> Seq<LiteralView> {
    Seq::new(clause.len(), |i: int| clause[i]@)
}

impl View for Query {
    type V = Seq<Seq<LiteralView>>;

    open spec fn view(&self) -> Seq<Seq<LiteralView>> {
        Seq::new(self.clauses.len() as nat, |i: int| clause_view(self.clauses[i]@))
    }
}

/// `c` separates words.
pub open spec fn is_space(c: char) -> bool {
    c == ' ' || c == '\t' || c == '\n' || c == '\r'
}

/// The words of `s`: its longest runs without a separator, in order.
pub open spec fn split_words(s: Seq<char>) -> Seq<Seq<char>>
    decreases s.len(),
{
    if s.len() == 0 {
        Seq::empty()
    } else {
        let before = split_words(s.drop_last());
        if is_space(s.last()) {
            before
        } else if s.len() > 1 && !is_space(s[s.len() - 2]) {
            before.drop_last().push(before.last().push(s.last()))
        } else {
            before.push(seq![s.last()])
        }
    }
}

/// What a word asks: a field filter where it begins with the name of a
/// known field and a colon, the word itself as a term where it does not.
/// A known field without a value is malformed.
pub open spec fn atom_of(word: Seq<char>) -> Result<AtomView, ErrorKind> {
    if !has_colon(word) {
        Ok(AtomView::Term(word))
    } else {
        let name = word.take(first_colon(word));
        let value = word.skip(first_colon(word) + 1);
        let known = name == "tag"@ || name == "label"@ || name == "track"@ || name == "uri"@
            || name == "scope"@;
        if !known {
            Ok(AtomView::Term(word))
        } else if value.len() == 0 {
            Err(ErrorKind::QueryMalformed)
        } else if name == "tag"@ {
            Ok(AtomView::Tag(value))
        } else if name == "label"@ {
            Ok(AtomView::Label(value))
        } else if name == "track"@ {
            Ok(AtomView::Track(value))
        } else if name == "uri"@ {
            Ok(AtomView::Uri(value))
        } else {
            Ok(AtomView::Scope(value))
        }
    }
}

/// Where the reading of a query stands: the clauses that are closed, the
/// literals of the open one, and whether the next atom is negated.
pub struct Reading {
    pub closed: Seq<Seq<LiteralView>>,
    pub open: Seq<LiteralView>,
    pub negate: bool,
}

/// The reading once the open clause is closed; an empty one is dropped.
pub open spec fn close_clause(r: Reading) -> Seq<Seq<LiteralView>> {
    if r.open.len() > 0 {
        r.closed.push(r.open)
    } else {
        r.closed
    }
}

/// The reading after one more word: `OR` closes the clause, `AND` changes
/// nothing, `NOT` negates the next atom, any other word adds its atom to
/// the open clause.
pub open spec fn read_word(r: Reading, word: Seq<char>) -> Result<Reading, ErrorKind> {
    if word == "OR"@ {
        Ok(Reading { closed: close_clause(r), open: Seq::empty(), negate: false })
    } else if word == "AND"@ {
        Ok(r)
    } else if word == "NOT"@ {
        Ok(Reading { negate: true, ..r })
    } else {
        match atom_of(word) {
            Err(e) => Err(e),
            Ok(atom) => Ok(
                Reading {
                    open: r.open.push(LiteralView { negated: r.negate, atom }),
                    negate: false,
                    ..r
                },
            ),
        }
    }
}

/// The reading after all of `words`.
pub open spec fn read_words(words: Seq<Seq<char>>) -> Result<Reading, ErrorKind>
    decreases words.len(),
{
    if words.len() == 0 {
        Ok(Reading { closed: Seq::empty(), open: Seq::empty(), negate: false })
    } else {
        match read_words(words.drop_last()) {
            Err(e) => Err(e),
            Ok(r) => read_word(r, words.last()),
        }
    }
}

/// The query that `text` spells.
pub open spec fn parse_query_spec(text: Seq<char>) -> Result<Seq<Seq<LiteralView>>, ErrorKind> {
    match read_words(split_words(text)) {
        Err(e) => Err(e),
        Ok(r) => Ok(close_clause(r)),
    }
}

/// The content of each word of a list.
pub open spec fn word_views(words: Seq<Vec<char>>) -> Seq<Seq<char>> {
    Seq::new(words.len(), |i: int| words[i]@)
}

fn is_space_char(c: char) -> (b: bool)
    ensures
        b == is_space(c),
{
    c == ' ' || c == '\t' || c == '\n' || c == '\r'
}

/// Cuts a text into its words.
pub fn words_of(chars: &Vec<char>) -> (words: Vec<Vec<char>>)
    ensures
        word_views(words@) == split_words(chars@),
{
    let mut words: Vec<Vec<char>> = Vec::new();
    let mut current: Vec<char> = Vec::new();
    let mut i: usize = 0;
    proof {
        assert(chars@.take(0) =~= Seq::<char>::empty());
        assert(word_views(words@) =~= Seq::<Seq<char>>::empty());
    }
    while i < chars.len()
        invariant
            i <= chars.len(),
            current.len() > 0 ==> i > 0 && !is_space(chars[i - 1]) && split_words(
                chars@.take(i as int),
            ) == word_views(words@).push(current@),
            current.len() == 0 ==> (i == 0 || is_space(chars[i - 1])) && split_words(
                chars@.take(i as int),
            ) == word_views(words@),
        decreases chars.len() - i,
    {
        let c: char = chars[i];
        let ghost prefix = chars@.take(i as int);
        let ghost next = chars@.take(i + 1);
        let ghost done = word_views(words@);
        proof {
            assert(next.drop_last() =~= prefix);
            assert(next.last() == c);
            if i > 0 {
                assert(next[next.len() - 2] == chars[i - 1]);
            }
        }
        if is_space_char(c) {
            if current.len() > 0 {
                let ghost word = current@;
                words.push(current);
                current = Vec::new();
                assert(word_views(words@) =~= done.push(word));
            }
        } else {
            let ghost before = current@;
            current.push(c);
            proof {
                if before.len() > 0 {
                    let w = done.push(before);
                    assert(w.drop_last() =~= done);
                    assert(w.last() == before);
                } else {
                    assert(current@ =~= seq![c]);
                }
            }
        }
        i = i + 1;
    }
    proof {
        assert(chars@.take(chars.len() as int) =~= chars@);
    }
    if current.len() > 0 {
        let ghost done = word_views(words@);
        let ghost word = current@;
        words.push(current);
        assert(word_views(words@) =~= done.push(word));
    }
    words
}

/// Whether a word spells `name`.
fn spells(word: &Vec<char>, name: &str) -> (b: bool)
    ensures
        b == (word@ == name@),
{
    let expected: Vec<char> = str_chars(name);
    chars_eq(word, &expected)
}

/// Reads what one word asks.
pub fn read_atom(word: &Vec<char>) -> (r: Result<Atom, ErrorKind>)
    ensures
        match atom_of(word@) {
            Ok(atom) => r is Ok && r->Ok_0@ == atom,
            Err(e) => r == Err::<Atom, ErrorKind>(e),
        },
{
    let mut at: usize = 0;
    while at < word.len() && word[at] != ':'
        invariant
            at <= word.len(),
            forall|j: int| 0 <= j < at ==> word[j] != ':',
        decreases word.len() - at,
    {
        at = at + 1;
    }
    proof {
        assert(word@.subrange(0, word.len() as int) =~= word@);
    }
    if at >= word.len() {
        proof {
            assert forall|i: int| !first_colon_at(word@, i) by {}
        }
        return Ok(Atom::Term(chars_range(word, 0, word.len())));
    }
    proof {
        lemma_first_colon(word@, at as int);
        assert(word@.subrange(0, at as int) =~= word@.take(at as int));
        assert(word@.subrange(at + 1, word.len() as int) =~= word@.skip(at + 1));
    }
    let name: Vec<char> = chars_range(word, 0, at);
    let value: Vec<char> = chars_range(word, at + 1, word.len());
    let is_tag: bool = spells(&name, "tag");
    let is_label: bool = spells(&name, "label");
    let is_track: bool = spells(&name, "track");
    let is_uri: bool = spells(&name, "uri");
    let is_scope: bool = spells(&name, "scope");
    if !(is_tag || is_label || is_track || is_uri || is_scope) {
        return Ok(Atom::Term(chars_range(word, 0, word.len())));
    }
    if value.len() == 0 {
        return Err(ErrorKind::QueryMalformed);
    }
    if is_tag {
        Ok(Atom::Tag(value))
    } else if is_label {
        Ok(Atom::Label(value))
    } else if is_track {
        Ok(Atom::Track(value))
    } else if is_uri {
        Ok(Atom::Uri(value))
    } else {
        Ok(Atom::Scope(value))
    }
}

/// Reads a query.
pub fn parse_query(text: &str) -> (r: Result<Query, ErrorKind>)
    ensures
        match parse_query_spec(text@) {
            Ok(q) => r is Ok && r->Ok_0@ == q,
            Err(e) => r == Err::<Query, ErrorKind>(e),
        },
{
    let chars: Vec<char> = str_chars(text);
    let words: Vec<Vec<char>> = words_of(&chars);
    let mut query = Query { clauses: Vec::new() };
    let mut open: Vec<Literal> = Vec::new();
    let mut negate: bool = false;
    let mut i: usize = 0;
    proof {
        assert(word_views(words@).take(0) =~= Seq::<Seq<char>>::empty());
        assert(query@ =~= Seq::<Seq<LiteralView>>::empty());
        assert(clause_view(open@) =~= Seq::<LiteralView>::empty());
    }
    while i < words.len()
        invariant
            i <= words.len(),
            word_views(words@) == split_words(text@),
            read_words(word_views(words@).take(i as int)) == Ok::<Reading, ErrorKind>(
                Reading { closed: query@, open: clause_view(open@), negate },
            ),
        decreases words.len() - i,
    {
        let word: &Vec<char> = &words[i];
        let ghost state = Reading { closed: query@, open: clause_view(open@), negate };
        proof {
            let next = word_views(words@).take(i + 1);
            assert(next.drop_last() =~= word_views(words@).take(i as int));
            assert(next.last() == word@);
        }
        if spells(word, "OR") {
            if open.len() > 0 {
                let ghost closed = query@;
                let ghost clause = clause_view(open@);
                query.clauses.push(open);
                open = Vec::new();
                assert(query@ =~= closed.push(clause));
            }
            negate = false;
            assert(clause_view(open@) =~= Seq::<LiteralView>::empty());
        } else if spells(word, "AND") {
        } else if spells(word, "NOT") {
            negate = true;
        } else {
            match read_atom(word) {
                Err(e) => {
                    proof {
                        let next = word_views(words@).take(i + 1);
                        assert(read_words(next) == read_word(state, word@));
                        lemma_read_fails(word_views(words@), i as int);
                        assert(word_views(words@).take(words.len() as int) =~= word_views(words@));
                    }
                    return Err(e);
                },
                Ok(atom) => {
                    let ghost before = clause_view(open@);
                    let literal = Literal { negated: negate, atom };
                    let ghost added = literal@;
                    open.push(literal);
                    negate = false;
                    assert(clause_view(open@) =~= before.push(added));
                },
            }
        }
        i = i + 1;
    }
    proof {
        assert(word_views(words@).take(words.len() as int) =~= word_views(words@));
    }
    if open.len() > 0 {
        let ghost closed = query@;
        let ghost clause = clause_view(open@);
        query.clauses.push(open);
        assert(query@ =~= closed.push(clause));
    }
    Ok(query)
}

/// A reading that fails on the first words fails on all of them.
pub proof fn lemma_read_fails(words: Seq<Seq<char>>, i: int)
    requires
        0 <= i < words.len(),
        read_words(words.take(i + 1)) is Err,
    ensures
        read_words(words) == read_words(words.take(i + 1)),
    decreases words.len(),
{
    if i + 1 == words.len() {
        assert(words.take(i + 1) =~= words);
    } else {
        assert(words.drop_last().take(i + 1) =~= words.take(i + 1));
        lemma_read_fails(words.drop_last(), i);
    }
}

/// `word` is a run of characters of `s`.
pub open spec fn within(word: Seq<char>, s: Seq<char>) -> bool {
    exists|a: int| 0 <= a && a + word.len() <= s.len() && #[trigger] s.subrange(
        a,
        a + word.len(),
    ) == word
}

/// Every word of a text is a run of its characters, and the last word
/// ends where the text ends, where the text does not end in a separator.
pub proof fn lemma_words_within(s: Seq<char>)
    ensures
        forall|k: int| 0 <= k < split_words(s).len() ==> within(#[trigger] split_words(s)[k], s),
        s.len() > 0 && !is_space(s.last()) ==> split_words(s).len() > 0 && split_words(
            s,
        ).last().len() <= s.len() && s.subrange(
            s.len() - split_words(s).last().len(),
            s.len() as int,
        ) == split_words(s).last(),
    decreases s.len(),
{
    if s.len() > 0 {
        let p = s.drop_last();
        let c = s.last();
        lemma_words_within(p);
        let before = split_words(p);
        let words = split_words(s);
        assert forall|k: int| 0 <= k < before.len() implies within(#[trigger] before[k], s) by {
            let a = choose|a: int|
                0 <= a && a + before[k].len() <= p.len() && #[trigger] p.subrange(
                    a,
                    a + before[k].len(),
                ) == before[k];
            assert(s.subrange(a, a + before[k].len()) =~= p.subrange(a, a + before[k].len()));
        }
        if is_space(c) {
        } else if s.len() > 1 && !is_space(s[s.len() - 2]) {
            assert(p.last() == s[s.len() - 2]);
            let last = before.last();
            let grown = last.push(c);
            assert(words == before.drop_last().push(grown));
            let a = p.len() - last.len();
            assert(s.subrange(a, s.len() as int) =~= grown) by {
                assert(p.subrange(a, p.len() as int) == last);
                assert forall|i: int| 0 <= i < grown.len() implies s.subrange(a, s.len() as int)[i]
                    == grown[i] by {
                    if i < last.len() {
                        assert(p.subrange(a, p.len() as int)[i] == p[a + i]);
                    }
                }
            }
            assert(a + grown.len() == s.len());
            assert forall|k: int| 0 <= k < words.len() implies within(#[trigger] words[k], s) by {
                if k < words.len() - 1 {
                    assert(words[k] == before[k]);
                } else {
                    assert(words[k] == grown);
                }
            }
        } else {
            let single = seq![c];
            assert(words == before.push(single));
            assert(s.subrange(s.len() - 1, s.len() as int) =~= single);
            assert forall|k: int| 0 <= k < words.len() implies within(#[trigger] words[k], s) by {
                if k < words.len() - 1 {
                    assert(words[k] == before[k]);
                } else {
                    assert(words[k] == single);
                    assert(s.subrange(s.len() - 1, s.len() - 1 + single.len()) == single);
                }
            }
        }
    }
}

/// Every term of a reading is one of the words that were read.
pub open spec fn terms_among(clause: Seq<LiteralView>, words: Seq<Seq<char>>) -> bool {
    forall|k: int|
        0 <= k < clause.len() ==> ((#[trigger] clause[k]).atom matches AtomView::Term(t)
            ==> words.contains(t))
}

/// The terms of a query are words of its text.
pub proof fn lemma_terms_are_words(words: Seq<Seq<char>>)
    requires
        read_words(words) is Ok,
    ensures
        terms_among(read_words(words)->Ok_0.open, words),
        forall|c: int|
            0 <= c < read_words(words)->Ok_0.closed.len() ==> terms_among(
                #[trigger] read_words(words)->Ok_0.closed[c],
                words,
            ),
    decreases words.len(),
{
    if words.len() > 0 {
        let shorter = words.drop_last();
        let word = words.last();
        lemma_terms_are_words(shorter);
        let before = read_words(shorter)->Ok_0;
        let now = read_words(words)->Ok_0;
        assert forall|t: Seq<char>| shorter.contains(t) implies words.contains(t) by {
            let i = choose|i: int| 0 <= i < shorter.len() && shorter[i] == t;
            assert(words[i] == t);
        }
        assert(words[words.len() - 1] == word);
        assert(terms_among(before.open, words));
        assert forall|c: int| 0 <= c < before.closed.len() implies terms_among(
            #[trigger] before.closed[c],
            words,
        ) by {
            assert(terms_among(before.closed[c], shorter));
        }
        if word == "OR"@ {
            assert forall|c: int| 0 <= c < now.closed.len() implies terms_among(
                #[trigger] now.closed[c],
                words,
            ) by {
                if c < before.closed.len() {
                    assert(now.closed[c] == before.closed[c]);
                }
            }
        } else if word == "AND"@ {
        } else if word == "NOT"@ {
        } else {
            let atom = atom_of(word)->Ok_0;
            assert(now.open == before.open.push(LiteralView { negated: before.negate, atom }));
            assert forall|k: int| 0 <= k < now.open.len() implies ((#[trigger] now.open[k]).atom
                matches AtomView::Term(t) ==> words.contains(t)) by {
                if k < before.open.len() {
                    assert(now.open[k] == before.open[k]);
                }
            }
        }
    }
}

} // verus!
