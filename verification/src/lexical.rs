//! The lexical matcher: whether a frame meets a query, by substring and
//! keyword comparison without regard to ASCII case, and where and how
//! often the words of the query occur in its text.

use crate::frame::{Frame, FrameView};
use crate::query::{clause_view, Atom, AtomView, Literal, LiteralView, Query};
use crate::text::{chars_eq, str_chars, texts};
use vstd::prelude::*;

verus! {

/// The character in lower case, where it is an ASCII capital.
pub open spec fn ascii_lower(c: char) -> char {
    if 65 <= c as u32 <= 90 {
        ((c as u32 + 32) as u8) as char
    } else {
        c
    }
}

/// The text with its ASCII capitals in lower case.
pub open spec fn fold(s: Seq<char>) -> Seq<char> {
    Seq::new(s.len(), |i: int| ascii_lower(s[i]))
}

/// `needle` stands in `hay` at `i`.
pub open spec fn matches_at(needle: Seq<char>, hay: Seq<char>, i: int) -> bool {
    &&& 0 <= i
    &&& i + needle.len() <= hay.len()
    &&& hay.subrange(i, i + needle.len()) == needle
}

/// `needle` stands somewhere in `hay`.
pub open spec fn occurs(needle: Seq<char>, hay: Seq<char>) -> bool {
    exists|i: int| matches_at(needle, hay, i)
}

/// `needle` stands in `hay` at `i` and nowhere before.
pub open spec fn first_match_at(needle: Seq<char>, hay: Seq<char>, i: int) -> bool {
    matches_at(needle, hay, i) && forall|j: int| 0 <= j < i ==> !matches_at(needle, hay, j)
}

/// Where `needle` first stands in `hay`.
pub open spec fn first_match(needle: Seq<char>, hay: Seq<char>) -> int {
    choose|i: int| first_match_at(needle, hay, i)
}

/// The number of places below `k` at which `needle` stands in `hay`.
pub open spec fn matches_below(needle: Seq<char>, hay: Seq<char>, k: int) -> nat
    decreases k,
{
    if k <= 0 {
        0
    } else {
        matches_below(needle, hay, k - 1) + if matches_at(needle, hay, k - 1) {
            1nat
        } else {
            0nat
        }
    }
}

/// `prefix` is the beginning of `text`.
pub open spec fn starts_with(text: Seq<char>, prefix: Seq<char>) -> bool {
    prefix.len() <= text.len() && text.subrange(0, prefix.len() as int) == prefix
}

/// One of `list` is `value`, ASCII case aside.
pub open spec fn lists(list: Seq<Seq<char>>, value: Seq<char>) -> bool {
    exists|k: int| 0 <= k < list.len() && fold(#[trigger] list[k]) == fold(value)
}

/// The frame meets the atom.
pub open spec fn atom_holds(f: FrameView, atom: AtomView) -> bool {
    match atom {
        AtomView::Term(t) => f.search_text is Some && occurs(fold(t), fold(f.search_text->0)),
        AtomView::Tag(v) => lists(f.tags, v),
        AtomView::Label(v) => lists(f.labels, v),
        AtomView::Track(v) => f.track is Some && fold(f.track->0) == fold(v),
        AtomView::Uri(v) => f.uri == Some(v),
        AtomView::Scope(v) => f.uri is Some && starts_with(f.uri->0, v),
    }
}

/// The frame meets the literal.
pub open spec fn literal_holds(f: FrameView, l: LiteralView) -> bool {
    l.negated != atom_holds(f, l.atom)
}

/// The frame meets every literal of the clause.
pub open spec fn clause_holds(f: FrameView, clause: Seq<LiteralView>) -> bool {
    forall|k: int| 0 <= k < clause.len() ==> literal_holds(f, #[trigger] clause[k])
}

/// The frame meets the query: one of its clauses, or any query without one.
pub open spec fn query_holds(f: FrameView, q: Seq<Seq<LiteralView>>) -> bool {
    q.len() == 0 || exists|c: int| 0 <= c < q.len() && clause_holds(f, #[trigger] q[c])
}

/// The literal asks for a term, without negation.
pub open spec fn asks_term(l: LiteralView) -> bool {
    l.atom is Term && !l.negated
}

/// The frame meets every literal of the clause that does not just ask for
/// a term: every filter, and every negation.
pub open spec fn rest_holds(f: FrameView, clause: Seq<LiteralView>) -> bool {
    forall|k: int|
        0 <= k < clause.len() ==> asks_term(#[trigger] clause[k]) || literal_holds(f, clause[k])
}

/// The terms that a clause asks for, without those it negates.
pub open spec fn clause_terms(clause: Seq<LiteralView>) -> Seq<Seq<char>>
    decreases clause.len(),
{
    if clause.len() == 0 {
        Seq::empty()
    } else {
        let before = clause_terms(clause.drop_last());
        match clause.last().atom {
            AtomView::Term(t) => if clause.last().negated {
                before
            } else {
                before.push(t)
            },
            _ => before,
        }
    }
}

/// The terms that a query asks for, clause by clause.
pub open spec fn positive_terms(q: Seq<Seq<LiteralView>>) -> Seq<Seq<char>>
    decreases q.len(),
{
    if q.len() == 0 {
        Seq::empty()
    } else {
        positive_terms(q.drop_last()) + clause_terms(q.last())
    }
}

/// The number of places at which the terms stand in the text, all terms
/// together, ASCII case aside.
pub open spec fn match_total(text: Seq<char>, terms: Seq<Seq<char>>) -> nat
    decreases terms.len(),
{
    if terms.len() == 0 {
        0
    } else {
        match_total(text, terms.drop_last()) + matches_below(
            fold(terms.last()),
            fold(text),
            text.len() as int,
        )
    }
}

/// Where a snippet of the text begins: where the first of the terms that
/// occur in it first stands, or at the start where none does.
pub open spec fn anchor(text: Seq<char>, terms: Seq<Seq<char>>) -> int
    decreases terms.len(),
{
    if terms.len() == 0 {
        0
    } else if occurs(fold(terms[0]), fold(text)) {
        first_match(fold(terms[0]), fold(text))
    } else {
        anchor(text, terms.skip(1))
    }
}

/// Where a text stands in another, it also does once the ASCII capitals of
/// both are in lower case.
pub proof fn lemma_fold_matches(needle: Seq<char>, hay: Seq<char>, i: int)
    requires
        matches_at(needle, hay, i),
    ensures
        matches_at(fold(needle), fold(hay), i),
{
    assert(fold(hay).subrange(i, i + fold(needle).len()) =~= fold(needle)) by {
        assert forall|k: int| 0 <= k < needle.len() implies fold(hay)[i + k] == fold(needle)[k] by {
            assert(hay.subrange(i, i + needle.len())[k] == needle[k]);
        }
    }
}

/// A run of characters of a text that stands in another text stands in it
/// too, ASCII case aside.
pub proof fn lemma_part_occurs(word: Seq<char>, q: Seq<char>, text: Seq<char>)
    requires
        crate::query::within(word, q),
        occurs(q, text),
    ensures
        occurs(fold(word), fold(text)),
{
    let a = choose|a: int|
        0 <= a && a + word.len() <= q.len() && #[trigger] q.subrange(a, a + word.len()) == word;
    let i = choose|i: int| matches_at(q, text, i);
    assert(matches_at(word, text, i + a)) by {
        assert(text.subrange(i + a, i + a + word.len()) =~= word) by {
            assert forall|k: int| 0 <= k < word.len() implies text[i + a + k] == word[k] by {
                assert(q.subrange(a, a + word.len())[k] == q[a + k]);
                assert(text.subrange(i, i + q.len())[a + k] == q[a + k]);
            }
        }
    }
    lemma_fold_matches(word, text, i + a);
}

/// The character in lower case, where it is an ASCII capital.
pub fn lower_char(c: char) -> (r: char)
    ensures
        r == ascii_lower(c),
{
    let u: u32 = c as u32;
    if 65 <= u && u <= 90 {
        ((u + 32) as u8) as char
    } else {
        c
    }
}

/// The characters with the ASCII capitals in lower case.
pub fn fold_chars(v: &Vec<char>) -> (r: Vec<char>)
    ensures
        r@ == fold(v@),
{
    let mut r: Vec<char> = Vec::new();
    let mut i: usize = 0;
    while i < v.len()
        invariant
            i <= v.len(),
            r.len() == i,
            forall|j: int| 0 <= j < i ==> r[j] == ascii_lower(v[j]),
        decreases v.len() - i,
    {
        r.push(lower_char(v[i]));
        i = i + 1;
    }
    assert(r@ =~= fold(v@));
    r
}

/// The characters of a text with the ASCII capitals in lower case.
pub fn fold_str(s: &str) -> (r: Vec<char>)
    ensures
        r@ == fold(s@),
{
    let chars: Vec<char> = str_chars(s);
    fold_chars(&chars)
}

/// Whether `needle` stands in `hay` at `i`.
pub fn stands_at(needle: &Vec<char>, hay: &Vec<char>, i: usize) -> (b: bool)
    ensures
        b == matches_at(needle@, hay@, i as int),
{
    if i > hay.len() || hay.len() - i < needle.len() {
        return false;
    }
    let mut k: usize = 0;
    while k < needle.len()
        invariant
            k <= needle.len(),
            i + needle.len() <= hay.len(),
            forall|j: int| 0 <= j < k ==> hay[i + j] == needle[j],
        decreases needle.len() - k,
    {
        if hay[i + k] != needle[k] {
            assert(hay@.subrange(i as int, i + needle.len())[k as int] != needle@[k as int]);
            return false;
        }
        k = k + 1;
    }
    assert(hay@.subrange(i as int, i + needle.len()) =~= needle@);
    true
}

/// Where `needle` first stands in `hay`.
pub fn find_first(needle: &Vec<char>, hay: &Vec<char>) -> (r: Option<usize>)
    ensures
        match r {
            Some(i) => first_match_at(needle@, hay@, i as int),
            None => !occurs(needle@, hay@),
        },
{
    let mut i: usize = 0;
    while i < hay.len()
        invariant
            i <= hay.len(),
            forall|j: int| 0 <= j < i ==> !matches_at(needle@, hay@, j),
        decreases hay.len() - i,
    {
        if stands_at(needle, hay, i) {
            return Some(i);
        }
        i = i + 1;
    }
    if stands_at(needle, hay, i) {
        return Some(i);
    }
    assert forall|j: int| !matches_at(needle@, hay@, j) by {
        if matches_at(needle@, hay@, j) {
            assert(0 <= j <= hay.len());
        }
    }
    None
}

/// There is only one first place.
pub proof fn lemma_first_match(needle: Seq<char>, hay: Seq<char>, i: int)
    requires
        first_match_at(needle, hay, i),
    ensures
        occurs(needle, hay),
        first_match(needle, hay) == i,
{
    let j = first_match(needle, hay);
    assert(first_match_at(needle, hay, j));
    if j < i {
        assert(!matches_at(needle, hay, j));
    } else if i < j {
        assert(!matches_at(needle, hay, i));
    }
}

/// The number of places at which `needle` stands in `hay`.
pub fn count_matches(needle: &Vec<char>, hay: &Vec<char>) -> (n: usize)
    ensures
        n == matches_below(needle@, hay@, hay.len() as int),
{
    let mut n: usize = 0;
    let mut i: usize = 0;
    while i < hay.len()
        invariant
            i <= hay.len(),
            n <= i,
            n == matches_below(needle@, hay@, i as int),
        decreases hay.len() - i,
    {
        if stands_at(needle, hay, i) {
            n = n + 1;
        }
        i = i + 1;
    }
    n
}

/// Whether one of `list` is `value`, ASCII case aside.
fn list_has(list: &Vec<String>, value: &Vec<char>) -> (b: bool)
    ensures
        b == lists(texts(list@), value@),
{
    let wanted: Vec<char> = fold_chars(value);
    let mut k: usize = 0;
    while k < list.len()
        invariant
            k <= list.len(),
            wanted@ == fold(value@),
            forall|j: int| 0 <= j < k ==> fold(#[trigger] texts(list@)[j]) != fold(value@),
        decreases list.len() - k,
    {
        let item: Vec<char> = fold_str(list[k].as_str());
        if chars_eq(&item, &wanted) {
            assert(fold(texts(list@)[k as int]) == fold(value@));
            return true;
        }
        k = k + 1;
    }
    false
}

/// Whether `text` begins with `prefix`.
pub fn begins_with(text: &Vec<char>, prefix: &Vec<char>) -> (b: bool)
    ensures
        b == starts_with(text@, prefix@),
{
    if prefix.len() > text.len() {
        return false;
    }
    let b: bool = stands_at(prefix, text, 0);
    assert(text@.subrange(0, 0 + prefix.len()) == text@.subrange(0, prefix.len() as int));
    b
}

/// Whether the frame meets the atom. `folded` is the frame's text with
/// its ASCII capitals in lower case.
pub fn atom_matches(f: &Frame, folded: &Option<Vec<char>>, atom: &Atom) -> (b: bool)
    requires
        match folded {
            Some(t) => f@.search_text is Some && t@ == fold(f@.search_text->0),
            None => f@.search_text is None,
        },
    ensures
        b == atom_holds(f@, atom@),
{
    match atom {
        Atom::Term(t) => match folded {
            Some(hay) => {
                let needle: Vec<char> = fold_chars(t);
                find_first(&needle, hay).is_some()
            },
            None => false,
        },
        Atom::Tag(v) => list_has(&f.tags, v),
        Atom::Label(v) => list_has(&f.labels, v),
        Atom::Track(v) => match &f.track {
            Some(track) => {
                let a: Vec<char> = fold_str(track.as_str());
                let b: Vec<char> = fold_chars(v);
                chars_eq(&a, &b)
            },
            None => false,
        },
        Atom::Uri(v) => match &f.uri {
            Some(uri) => {
                let a: Vec<char> = str_chars(uri.as_str());
                chars_eq(&a, v)
            },
            None => false,
        },
        Atom::Scope(v) => match &f.uri {
            Some(uri) => {
                let a: Vec<char> = str_chars(uri.as_str());
                begins_with(&a, v)
            },
            None => false,
        },
    }
}

/// Whether the frame meets every literal of the clause.
fn clause_matches(f: &Frame, folded: &Option<Vec<char>>, clause: &Vec<Literal>) -> (b: bool)
    requires
        match folded {
            Some(t) => f@.search_text is Some && t@ == fold(f@.search_text->0),
            None => f@.search_text is None,
        },
    ensures
        b == clause_holds(f@, clause_view(clause@)),
{
    let mut k: usize = 0;
    while k < clause.len()
        invariant
            k <= clause.len(),
            match folded {
                Some(t) => f@.search_text is Some && t@ == fold(f@.search_text->0),
                None => f@.search_text is None,
            },
            forall|j: int| 0 <= j < k ==> literal_holds(f@, #[trigger] clause_view(clause@)[j]),
        decreases clause.len() - k,
    {
        let holds: bool = atom_matches(f, folded, &clause[k].atom);
        if holds == clause[k].negated {
            assert(!literal_holds(f@, clause_view(clause@)[k as int]));
            return false;
        }
        k = k + 1;
    }
    true
}

/// Whether the frame meets every literal of the clause that does not just
/// ask for a term.
pub fn rest_matches(f: &Frame, clause: &Vec<Literal>) -> (b: bool)
    ensures
        b == rest_holds(f@, clause_view(clause@)),
{
    let folded: Option<Vec<char>> = folded_text(f);
    let mut k: usize = 0;
    while k < clause.len()
        invariant
            k <= clause.len(),
            match folded {
                Some(t) => f@.search_text is Some && t@ == fold(f@.search_text->0),
                None => f@.search_text is None,
            },
            forall|j: int|
                0 <= j < k ==> asks_term(#[trigger] clause_view(clause@)[j]) || literal_holds(
                    f@,
                    clause_view(clause@)[j],
                ),
        decreases clause.len() - k,
    {
        let plain: bool = match &clause[k].atom {
            Atom::Term(_) => !clause[k].negated,
            _ => false,
        };
        if !plain {
            let holds: bool = atom_matches(f, &folded, &clause[k].atom);
            if holds == clause[k].negated {
                assert(!asks_term(clause_view(clause@)[k as int]));
                assert(!literal_holds(f@, clause_view(clause@)[k as int]));
                return false;
            }
        }
        k = k + 1;
    }
    true
}

/// The frame's text with its ASCII capitals in lower case.
pub fn folded_text(f: &Frame) -> (folded: Option<Vec<char>>)
    ensures
        match folded {
            Some(t) => f@.search_text is Some && t@ == fold(f@.search_text->0),
            None => f@.search_text is None,
        },
{
    match &f.search_text {
        Some(t) => Some(fold_str(t.as_str())),
        None => None,
    }
}

/// Whether the frame meets the query.
pub fn frame_matches(f: &Frame, q: &Query) -> (b: bool)
    ensures
        b == query_holds(f@, q@),
{
    if q.clauses.len() == 0 {
        return true;
    }
    let folded: Option<Vec<char>> = folded_text(f);
    let mut c: usize = 0;
    while c < q.clauses.len()
        invariant
            c <= q.clauses.len(),
            match folded {
                Some(t) => f@.search_text is Some && t@ == fold(f@.search_text->0),
                None => f@.search_text is None,
            },
            forall|j: int| 0 <= j < c ==> !clause_holds(f@, #[trigger] q@[j]),
        decreases q.clauses.len() - c,
    {
        if clause_matches(f, &folded, &q.clauses[c]) {
            assert(clause_holds(f@, q@[c as int]));
            return true;
        }
        c = c + 1;
    }
    false
}

/// The content of each term of a list.
pub open spec fn term_views(terms: Seq<Vec<char>>) -> Seq<Seq<char>> {
    Seq::new(terms.len(), |i: int| terms[i]@)
}

/// The terms that a query asks for, without those it negates, each with
/// its ASCII capitals in lower case.
pub fn query_terms(q: &Query) -> (terms: Vec<Vec<char>>)
    ensures
        term_views(terms@).len() == positive_terms(q@).len(),
        forall|i: int|
            0 <= i < terms.len() ==> (#[trigger] terms[i])@ == fold(positive_terms(q@)[i]),
{
    let mut terms: Vec<Vec<char>> = Vec::new();
    let mut c: usize = 0;
    proof {
        assert(q@.take(0) =~= Seq::<Seq<LiteralView>>::empty());
    }
    while c < q.clauses.len()
        invariant
            c <= q.clauses.len(),
            terms.len() == positive_terms(q@.take(c as int)).len(),
            forall|i: int|
                0 <= i < terms.len() ==> (#[trigger] terms[i])@ == fold(
                    positive_terms(q@.take(c as int))[i],
                ),
        decreases q.clauses.len() - c,
    {
        let clause: &Vec<Literal> = &q.clauses[c];
        let ghost base = positive_terms(q@.take(c as int));
        let ghost cv = clause_view(clause@);
        let mut k: usize = 0;
        proof {
            assert(cv.take(0) =~= Seq::<LiteralView>::empty());
            assert(base + clause_terms(cv.take(0)) =~= base);
        }
        while k < clause.len()
            invariant
                k <= clause.len(),
                cv == clause_view(clause@),
                terms.len() == (base + clause_terms(cv.take(k as int))).len(),
                forall|i: int|
                    0 <= i < terms.len() ==> (#[trigger] terms[i])@ == fold(
                        (base + clause_terms(cv.take(k as int)))[i],
                    ),
            decreases clause.len() - k,
        {
            let ghost so_far = base + clause_terms(cv.take(k as int));
            proof {
                let next = cv.take(k + 1);
                assert(next.drop_last() =~= cv.take(k as int));
                assert(next.last() == clause[k as int]@);
            }
            match &clause[k].atom {
                Atom::Term(t) => {
                    if !clause[k].negated {
                        terms.push(fold_chars(t));
                        proof {
                            let grown = base + clause_terms(cv.take(k + 1));
                            assert(grown =~= so_far.push(t@));
                        }
                    }
                },
                _ => {},
            }
            k = k + 1;
        }
        proof {
            assert(cv.take(clause.len() as int) =~= cv);
            let next = q@.take(c + 1);
            assert(next.drop_last() =~= q@.take(c as int));
            assert(next.last() == cv);
        }
        c = c + 1;
    }
    proof {
        assert(q@.take(q.clauses.len() as int) =~= q@);
    }
    terms
}

} // verus!
