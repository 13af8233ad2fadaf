//! Line unfolding: turns raw text into logical lines.

use vstd::prelude::*;

use crate::error::Error;
use crate::text::{prepend_piece, push_char, views_of};

verus! {

/// Whether `c` is a space or a horizontal tab.
pub open spec fn is_fold_space(c: char) -> bool {
    c == ' ' || c == '\t'
}

/// The length of the fold that `s` begins with: a CRLF or a bare LF
/// followed by a space or tab; zero when `s` begins with none.
pub open spec fn fold_len(s: Seq<char>) -> int {
    if s.len() >= 3 && s[0] == '\r' && s[1] == '\n' && is_fold_space(s[2]) {
        3
    } else if s.len() >= 2 && s[0] == '\n' && is_fold_space(s[1]) {
        2
    } else {
        0
    }
}

/// The text with every fold taken out.
pub open spec fn unfold_text(s: Seq<char>) -> Seq<char>
    decreases s.len(),
{
    if s.len() == 0 {
        s
    } else if fold_len(s) > 0 {
        unfold_text(s.subrange(fold_len(s), s.len() as int))
    } else {
        seq![s[0]] + unfold_text(s.drop_first())
    }
}

/// The pieces of `s` between its line feeds.
pub open spec fn split_lf(s: Seq<char>) -> Seq<Seq<char>>
    decreases s.len(),
{
    if s.len() == 0 {
        seq![s]
    } else if s[0] == '\n' {
        seq![Seq::<char>::empty()] + split_lf(s.drop_first())
    } else {
        let p = split_lf(s.drop_first());
        p.update(0, seq![s[0]] + p[0])
    }
}

/// A line without the carriage return that ends it, if any.
pub open spec fn strip_cr(l: Seq<char>) -> Seq<char> {
    if l.len() > 0 && l.last() == '\r' {
        l.drop_last()
    } else {
        l
    }
}

/// The logical lines of an unfolded text: its pieces between line feeds,
/// each without a final carriage return, and without the empty piece after
/// a final line break.
pub open spec fn lines_of(t: Seq<char>) -> Seq<Seq<char>> {
    let p = split_lf(t).map_values(|l: Seq<char>| strip_cr(l));
    if p.len() > 0 && p.last().len() == 0 {
        p.drop_last()
    } else {
        p
    }
}

proof fn lemma_split_lf_nonempty(s: Seq<char>)
    ensures
        split_lf(s).len() >= 1,
    decreases s.len(),
{
    if s.len() > 0 {
        lemma_split_lf_nonempty(s.drop_first());
    }
}

/// Removes every fold from `s`.
fn remove_folds(s: &str) -> (r: String)
    ensures
        r@ == unfold_text(s@),
{
    let n = s.unicode_len();
    let mut r = String::new();
    let mut i: usize = 0;
    assert(s@.subrange(0, n as int) =~= s@);
    assert(r@ + unfold_text(s@) =~= unfold_text(s@));
    while i < n
        invariant
            n == s@.len(),
            i <= n,
            r@ + unfold_text(s@.subrange(i as int, n as int)) == unfold_text(s@),
        decreases n - i,
    {
        let ghost rest = s@.subrange(i as int, n as int);
        let c = s.get_char(i);
        if c == '\r' && 2 < n - i && s.get_char(i + 1) == '\n' && (s.get_char(i + 2) == ' '
            || s.get_char(i + 2) == '\t') {
            assert(fold_len(rest) == 3);
            assert(rest.subrange(3, rest.len() as int) =~= s@.subrange(i + 3, n as int));
            i = i + 3;
        } else if c == '\n' && 1 < n - i && (s.get_char(i + 1) == ' ' || s.get_char(i + 1)
            == '\t') {
            assert(fold_len(rest) == 2);
            assert(rest.subrange(2, rest.len() as int) =~= s@.subrange(i + 2, n as int));
            i = i + 2;
        } else {
            assert(fold_len(rest) == 0);
            let ghost before = r@;
            push_char(&mut r, c);
            assert(rest.drop_first() =~= s@.subrange(i + 1, n as int));
            assert(before + unfold_text(rest) =~= r@ + unfold_text(s@.subrange(i + 1, n as int)));
            i = i + 1;
        }
    }
    assert(s@.subrange(n as int, n as int) =~= Seq::<char>::empty());
    assert(r@ + Seq::<char>::empty() =~= r@);
    r
}

fn take_cr(l: String) -> (r: String)
    ensures
        r@ == strip_cr(l@),
{
    let n = l.as_str().unicode_len();
    if n > 0 && l.as_str().get_char(n - 1) == '\r' {
        let r = l.as_str().substring_char(0, n - 1).to_owned();
        assert(r@ =~= l@.drop_last());
        r
    } else {
        l
    }
}

/// Splits `s` at its line feeds, taking a carriage return off the end of
/// each piece.
fn split_lines(s: &str) -> (r: Vec<String>)
    ensures
        views_of(r@) == split_lf(s@).map_values(|l: Seq<char>| strip_cr(l)),
{
    let n = s.unicode_len();
    let mut done: Vec<String> = Vec::new();
    let mut cur = String::new();
    let mut i: usize = 0;
    let ghost whole = split_lf(s@).map_values(|l: Seq<char>| strip_cr(l));
    assert(s@.subrange(0, n as int) =~= s@);
    proof {
        lemma_split_lf_nonempty(s@);
        assert(prepend_piece(cur@, split_lf(s@)) =~= split_lf(s@));
        assert(views_of(done@) + whole =~= whole);
    }
    while i < n
        invariant
            n == s@.len(),
            i <= n,
            whole == split_lf(s@).map_values(|l: Seq<char>| strip_cr(l)),
            views_of(done@) + prepend_piece(cur@, split_lf(s@.subrange(i as int, n as int))).map_values(
                |l: Seq<char>| strip_cr(l),
            ) == whole,
        decreases n - i,
    {
        let c = s.get_char(i);
        let ghost rest = s@.subrange(i as int, n as int);
        let ghost next = s@.subrange(i + 1, n as int);
        assert(rest.drop_first() =~= next);
        proof {
            lemma_split_lf_nonempty(next);
        }
        let ghost p = split_lf(next);
        let ghost old_done = views_of(done@);
        let ghost old_cur = cur@;
        if c == '\n' {
            let l = take_cr(cur);
            done.push(l);
            cur = String::new();
            assert(split_lf(rest) == seq![Seq::<char>::empty()] + p);
            assert(views_of(done@) =~= old_done.push(strip_cr(old_cur)));
            assert(prepend_piece(old_cur, seq![Seq::<char>::empty()] + p) =~= seq![old_cur] + p);
            assert(prepend_piece(cur@, p) =~= p);
            assert(old_done + (seq![old_cur] + p).map_values(|l: Seq<char>| strip_cr(l))
                =~= views_of(done@) + p.map_values(|l: Seq<char>| strip_cr(l)));
        } else {
            push_char(&mut cur, c);
            assert(split_lf(rest) == prepend_piece(seq![c], p));
            assert(old_cur + (seq![c] + p[0]) =~= cur@ + p[0]);
            assert(prepend_piece(old_cur, prepend_piece(seq![c], p)) =~= prepend_piece(cur@, p));
        }
        i = i + 1;
    }
    let ghost old_done = views_of(done@);
    let ghost old_cur = cur@;
    assert(s@.subrange(n as int, n as int) =~= Seq::<char>::empty());
    assert(prepend_piece(old_cur, seq![Seq::<char>::empty()]) =~= seq![old_cur]);
    let l = take_cr(cur);
    done.push(l);
    assert(views_of(done@) =~= old_done.push(strip_cr(old_cur)));
    assert(old_done + seq![old_cur].map_values(|l: Seq<char>| strip_cr(l)) =~= views_of(done@));
    done
}

/// Splits raw text into logical lines: folds (a line break followed by a
/// space or tab) are taken out, lines end at LF or CRLF, and a last line
/// without a terminator is kept. Text that begins with a continuation
/// fails with `IncorrectToken`.
pub fn unfold(s: &str) -> (r: Result<Vec<String>, Error>)
    ensures
        r is Err <==> s@.len() > 0 && is_fold_space(s@[0]),
        r matches Ok(v) ==> views_of(v@) == lines_of(unfold_text(s@)),
        r matches Err(e) ==> e is IncorrectToken,
{
    if s.unicode_len() > 0 && (s.get_char(0) == ' ' || s.get_char(0) == '\t') {
        let mut t = String::new();
        push_char(&mut t, s.get_char(0));
        return Err(Error::IncorrectToken(t));
    }
    let text = remove_folds(s);
    let mut lines = split_lines(text.as_str());
    let ghost p = views_of(lines@);
    let k = lines.len();
    if k > 0 && lines[k - 1].as_str().unicode_len() == 0 {
        assert(p.last() == lines@[k - 1]@);
        lines.pop();
        assert(views_of(lines@) =~= p.drop_last());
    }
    Ok(lines)
}

/// Unfolding distributes over a join at which no fold can start: no line
/// feed before a space or tab, nor a carriage return before a line feed.
pub proof fn lemma_unfold_append(a: Seq<char>, x: Seq<char>)
    requires
        a.len() == 0 || x.len() == 0 || ((a.last() == '\n' ==> !is_fold_space(x[0])) && (a.last()
            == '\r' ==> x[0] != '\n')),
    ensures
        unfold_text(a + x) == unfold_text(a) + unfold_text(x),
    decreases a.len(),
{
    if a.len() == 0 {
        assert(a + x =~= x);
        assert(unfold_text(a) + unfold_text(x) =~= unfold_text(x));
    } else {
        let ax = a + x;
        let f = fold_len(ax);
        if f > 0 {
            assert(fold_len(a) == f);
            assert(ax.subrange(f, ax.len() as int) =~= a.subrange(f, a.len() as int) + x);
            lemma_unfold_append(a.subrange(f, a.len() as int), x);
        } else {
            assert(fold_len(a) == 0);
            assert(ax.drop_first() =~= a.drop_first() + x);
            lemma_unfold_append(a.drop_first(), x);
            assert(seq![a[0]] + (unfold_text(a.drop_first()) + unfold_text(x)) =~= (seq![a[0]]
                + unfold_text(a.drop_first())) + unfold_text(x));
        }
    }
}

/// Inserting CRLF and a space inside a line (no line feed just before or
/// just after the insertion point) leaves the unfolded text unchanged.
pub proof fn lemma_fold_insert(a: Seq<char>, b: Seq<char>)
    requires
        a.len() == 0 || a.last() != '\n',
        b.len() == 0 || b[0] != '\n',
    ensures
        unfold_text(a + seq!['\r', '\n', ' '] + b) == unfold_text(a + b),
{
    let fb = seq!['\r', '\n', ' '] + b;
    assert(a + seq!['\r', '\n', ' '] + b =~= a + fb);
    lemma_unfold_append(a, fb);
    lemma_unfold_append(a, b);
    assert(fold_len(fb) == 3);
    assert(fb.subrange(3, fb.len() as int) =~= b);
}

/// A text in which no line feed stands before a space or tab holds no fold.
pub proof fn lemma_unfold_plain(t: Seq<char>)
    requires
        forall|j: int| 0 <= j < t.len() - 1 ==> !(#[trigger] t[j] == '\n' && is_fold_space(t[j + 1])),
    ensures
        unfold_text(t) == t,
    decreases t.len(),
{
    if t.len() > 0 {
        assert(fold_len(t) == 0);
        lemma_unfold_plain(t.drop_first());
        assert(seq![t[0]] + t.drop_first() =~= t);
    }
}

} // verus!
