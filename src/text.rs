//! Character-level helpers shared by the value grammars.

use vstd::prelude::*;

verus! {

/// Relies on `String::push`: the character is appended at the end.
#[verifier::external_body]
pub(crate) fn push_char(s: &mut String, c: char)
    ensures
        final(s)@ == old(s)@.push(c),
{
    s.push(c)
}

/// Appends every character of `t` to `s`.
pub(crate) fn push_str(s: &mut String, t: &str)
    ensures
        final(s)@ == old(s)@ + t@,
{
    let n = t.unicode_len();
    let mut i: usize = 0;
    while i < n
        invariant
            n == t@.len(),
            i <= n,
            s@ == old(s)@ + t@.subrange(0, i as int),
        decreases n - i,
    {
        push_char(s, t.get_char(i));
        i = i + 1;
        assert(t@.subrange(0, i as int) == t@.subrange(0, i - 1).push(t@[i - 1]));
    }
    assert(t@.subrange(0, n as int) == t@);
}

/// Whether `s` and `t` hold the same characters.
pub fn str_equals(s: &str, t: &str) -> (r: bool)
    ensures
        r == (s@ == t@),
{
    let n = s.unicode_len();
    if n != t.unicode_len() {
        return false;
    }
    let mut i: usize = 0;
    while i < n
        invariant
            n == s@.len(),
            n == t@.len(),
            i <= n,
            forall|j: int| 0 <= j < i ==> s@[j] == t@[j],
        decreases n - i,
    {
        if s.get_char(i) != t.get_char(i) {
            return false;
        }
        i = i + 1;
    }
    assert(s@ =~= t@);
    true
}

} // verus!

verus! {

/// Whether `c` is an ASCII decimal digit.
pub open spec fn is_digit(c: char) -> bool {
    '0' <= c && c <= '9'
}

/// The value of the decimal digit `c`.
pub open spec fn digit_value(c: char) -> int {
    c as int - '0' as int
}

/// The decimal digit that stands for `d`, for `d` in `0..10`.
pub(crate) fn digit_char(d: u8) -> (c: char)
    requires
        d < 10,
    ensures
        is_digit(c),
        digit_value(c) == d,
{
    ((48u8 + d) as char)
}

} // verus!

verus! {

/// The escaped form of one character of a text value.
pub open spec fn escape_char(c: char) -> Seq<char> {
    if c == '\\' {
        seq!['\\', '\\']
    } else if c == ',' {
        seq!['\\', ',']
    } else if c == ';' {
        seq!['\\', ';']
    } else if c == '\n' {
        seq!['\\', 'n']
    } else {
        seq![c]
    }
}

/// A text value with `\`, `,`, `;` and newline escaped.
pub open spec fn escape_text(s: Seq<char>) -> Seq<char>
    decreases s.len(),
{
    if s.len() == 0 {
        s
    } else {
        escape_char(s[0]) + escape_text(s.drop_first())
    }
}

/// What a backslash followed by `c` stands for in a text value: `\n` and
/// `\N` a newline, `\,` `\;` `\\` the character itself; any other pair is
/// kept as written.
pub open spec fn unescape_pair(c: char) -> Seq<char> {
    if c == 'n' || c == 'N' {
        seq!['\n']
    } else if c == ',' || c == ';' || c == '\\' {
        seq![c]
    } else {
        seq!['\\', c]
    }
}

/// A text value with its escape sequences replaced by what they stand for;
/// a backslash at the very end is kept.
pub open spec fn unescape_text(s: Seq<char>) -> Seq<char>
    decreases s.len(),
{
    if s.len() == 0 {
        s
    } else if s[0] == '\\' && s.len() >= 2 {
        unescape_pair(s[1]) + unescape_text(s.subrange(2, s.len() as int))
    } else {
        seq![s[0]] + unescape_text(s.drop_first())
    }
}

/// Escapes `\`, `,`, `;` and newline in a text value.
pub fn escape(s: &str) -> (r: String)
    ensures
        r@ == escape_text(s@),
{
    let n = s.unicode_len();
    let mut r = String::new();
    let mut i: usize = 0;
    assert(s@.subrange(0, n as int) =~= s@);
    assert(r@ + escape_text(s@) =~= escape_text(s@));
    while i < n
        invariant
            n == s@.len(),
            i <= n,
            r@ + escape_text(s@.subrange(i as int, n as int)) == escape_text(s@),
        decreases n - i,
    {
        let c = s.get_char(i);
        let ghost before = r@;
        assert(s@.subrange(i as int, n as int).drop_first() =~= s@.subrange(i + 1, n as int));
        if c == '\\' {
            push_char(&mut r, '\\');
            push_char(&mut r, '\\');
        } else if c == ',' {
            push_char(&mut r, '\\');
            push_char(&mut r, ',');
        } else if c == ';' {
            push_char(&mut r, '\\');
            push_char(&mut r, ';');
        } else if c == '\n' {
            push_char(&mut r, '\\');
            push_char(&mut r, 'n');
        } else {
            push_char(&mut r, c);
        }
        assert(r@ =~= before + escape_char(c));
        assert(before + escape_text(s@.subrange(i as int, n as int)) =~= r@ + escape_text(
            s@.subrange(i + 1, n as int),
        ));
        i = i + 1;
    }
    assert(s@.subrange(n as int, n as int) =~= Seq::<char>::empty());
    assert(r@ + Seq::<char>::empty() =~= r@);
    r
}

/// Replaces the escape sequences of a text value by what they stand for.
pub fn unescape(s: &str) -> (r: String)
    ensures
        r@ == unescape_text(s@),
{
    let n = s.unicode_len();
    let mut r = String::new();
    let mut i: usize = 0;
    assert(s@.subrange(0, n as int) =~= s@);
    assert(r@ + unescape_text(s@) =~= unescape_text(s@));
    while i < n
        invariant
            n == s@.len(),
            i <= n,
            r@ + unescape_text(s@.subrange(i as int, n as int)) == unescape_text(s@),
        decreases n - i,
    {
        let c = s.get_char(i);
        let ghost before = r@;
        let ghost rest = s@.subrange(i as int, n as int);
        if c == '\\' && i + 1 < n {
            let d = s.get_char(i + 1);
            assert(rest.subrange(2, rest.len() as int) =~= s@.subrange(i + 2, n as int));
            if d == 'n' || d == 'N' {
                push_char(&mut r, '\n');
            } else if d == ',' || d == ';' || d == '\\' {
                push_char(&mut r, d);
            } else {
                push_char(&mut r, '\\');
                push_char(&mut r, d);
            }
            assert(r@ =~= before + unescape_pair(d));
            assert(before + unescape_text(rest) =~= r@ + unescape_text(
                s@.subrange(i + 2, n as int),
            ));
            i = i + 2;
        } else {
            assert(rest.drop_first() =~= s@.subrange(i + 1, n as int));
            push_char(&mut r, c);
            assert(before + unescape_text(rest) =~= r@ + unescape_text(
                s@.subrange(i + 1, n as int),
            ));
            i = i + 1;
        }
    }
    assert(s@.subrange(n as int, n as int) =~= Seq::<char>::empty());
    assert(r@ + Seq::<char>::empty() =~= r@);
    r
}

proof fn lemma_unescape_after_escaped_char(c: char, t: Seq<char>)
    ensures
        unescape_text(escape_char(c) + t) == seq![c] + unescape_text(t),
{
    let e = escape_char(c) + t;
    if e[0] == '\\' {
        assert(e.subrange(2, e.len() as int) =~= t);
    } else {
        assert(e.drop_first() =~= t);
    }
}

/// Unescaping an escaped text value gives back the value.
pub proof fn lemma_escape_round_trip(s: Seq<char>)
    ensures
        unescape_text(escape_text(s)) == s,
    decreases s.len(),
{
    if s.len() > 0 {
        lemma_escape_round_trip(s.drop_first());
        lemma_unescape_after_escaped_char(s[0], escape_text(s.drop_first()));
        assert(seq![s[0]] + s.drop_first() =~= s);
    }
}

} // verus!

verus! {

/// Adds `h` in front of the first piece of `p`.
pub open spec fn prepend_piece(h: Seq<char>, p: Seq<Seq<char>>) -> Seq<Seq<char>> {
    p.update(0, h + p[0])
}

/// The raw pieces of `s` between the occurrences of `sep` that no
/// backslash escapes; the pieces keep their escape sequences.
pub open spec fn split_unescaped(s: Seq<char>, sep: char) -> Seq<Seq<char>>
    decreases s.len(),
{
    if s.len() == 0 {
        seq![s]
    } else if s[0] == '\\' && s.len() >= 2 {
        prepend_piece(seq![s[0], s[1]], split_unescaped(s.subrange(2, s.len() as int), sep))
    } else if s[0] == sep {
        seq![Seq::<char>::empty()] + split_unescaped(s.drop_first(), sep)
    } else {
        prepend_piece(seq![s[0]], split_unescaped(s.drop_first(), sep))
    }
}

/// There is always at least one piece.
pub proof fn lemma_split_nonempty(s: Seq<char>, sep: char)
    ensures
        split_unescaped(s, sep).len() >= 1,
    decreases s.len(),
{
    if s.len() > 0 {
        if s[0] == '\\' && s.len() >= 2 {
            lemma_split_nonempty(s.subrange(2, s.len() as int), sep);
        } else {
            lemma_split_nonempty(s.drop_first(), sep);
        }
    }
}

/// The strings' texts.
pub open spec fn views_of(v: Seq<String>) -> Seq<Seq<char>> {
    v.map_values(|x: String| x@)
}

/// Splits `s` into its raw pieces between the occurrences of `sep` that no
/// backslash escapes.
pub fn split_raw(s: &str, sep: char) -> (r: Vec<String>)
    requires
        sep != '\\',
    ensures
        views_of(r@) == split_unescaped(s@, sep),
{
    let n = s.unicode_len();
    let mut done: Vec<String> = Vec::new();
    let mut cur = String::new();
    let mut i: usize = 0;
    assert(s@.subrange(0, n as int) =~= s@);
    proof {
        lemma_split_nonempty(s@, sep);
        assert(prepend_piece(cur@, split_unescaped(s@, sep)) =~= split_unescaped(s@, sep));
        assert(views_of(done@) + split_unescaped(s@, sep) =~= split_unescaped(s@, sep));
    }
    while i < n
        invariant
            n == s@.len(),
            i <= n,
            sep != '\\',
            views_of(done@) + prepend_piece(cur@, split_unescaped(s@.subrange(i as int, n as int), sep))
                == split_unescaped(s@, sep),
        decreases n - i,
    {
        let c = s.get_char(i);
        let ghost rest = s@.subrange(i as int, n as int);
        let ghost old_done = views_of(done@);
        let ghost old_cur = cur@;
        if c == '\\' && i + 1 < n {
            let d = s.get_char(i + 1);
            let ghost next = s@.subrange(i + 2, n as int);
            assert(rest.subrange(2, rest.len() as int) =~= next);
            proof {
                lemma_split_nonempty(next, sep);
            }
            push_char(&mut cur, c);
            push_char(&mut cur, d);
            let ghost p = split_unescaped(next, sep);
            assert(rest[0] == c && rest[1] == d);
            assert(split_unescaped(rest, sep) == prepend_piece(seq![c, d], p));
            assert(old_cur + (seq![c, d] + p[0]) =~= cur@ + p[0]);
            assert(prepend_piece(old_cur, split_unescaped(rest, sep)) =~= prepend_piece(
                cur@,
                split_unescaped(next, sep),
            ));
            i = i + 2;
        } else if c == sep {
            let ghost next = s@.subrange(i + 1, n as int);
            assert(rest.drop_first() =~= next);
            proof {
                lemma_split_nonempty(next, sep);
            }
            done.push(cur);
            cur = String::new();
            assert(views_of(done@) =~= old_done.push(old_cur));
            assert(old_done + prepend_piece(old_cur, split_unescaped(rest, sep)) =~= views_of(done@)
                + prepend_piece(cur@, split_unescaped(next, sep)));
            i = i + 1;
        } else {
            let ghost next = s@.subrange(i + 1, n as int);
            assert(rest.drop_first() =~= next);
            proof {
                lemma_split_nonempty(next, sep);
            }
            push_char(&mut cur, c);
            let ghost p = split_unescaped(next, sep);
            assert(rest[0] == c);
            assert(split_unescaped(rest, sep) == prepend_piece(seq![c], p));
            assert(old_cur + (seq![c] + p[0]) =~= cur@ + p[0]);
            assert(prepend_piece(old_cur, split_unescaped(rest, sep)) =~= prepend_piece(
                cur@,
                split_unescaped(next, sep),
            ));
            i = i + 1;
        }
    }
    let ghost old_done = views_of(done@);
    let ghost old_cur = cur@;
    assert(s@.subrange(n as int, n as int) =~= Seq::<char>::empty());
    done.push(cur);
    assert(views_of(done@) =~= old_done.push(old_cur));
    assert(old_done + prepend_piece(old_cur, seq![Seq::<char>::empty()]) =~= views_of(done@));
    done
}

} // verus!

verus! {

/// The escaped form of a text never splits at a separator that escaping
/// covers: it joins the first piece of what follows.
pub proof fn lemma_split_after_escaped(t: Seq<char>, x: Seq<char>, sep: char)
    requires
        sep == ';' || sep == ',',
    ensures
        split_unescaped(escape_text(t) + x, sep) == prepend_piece(
            escape_text(t),
            split_unescaped(x, sep),
        ),
    decreases t.len(),
{
    lemma_split_nonempty(x, sep);
    if t.len() == 0 {
        assert(escape_text(t) + x =~= x);
        assert(prepend_piece(escape_text(t), split_unescaped(x, sep)) =~= split_unescaped(x, sep));
    } else {
        let c = t[0];
        let e1 = escape_text(t.drop_first());
        lemma_split_after_escaped(t.drop_first(), x, sep);
        lemma_split_nonempty(e1 + x, sep);
        let whole = escape_char(c) + (e1 + x);
        assert(escape_text(t) + x =~= whole);
        let p = split_unescaped(x, sep);
        if escape_char(c).len() == 2 {
            assert(whole.subrange(2, whole.len() as int) =~= e1 + x);
            assert(escape_char(c) =~= seq![whole[0], whole[1]]);
            assert(escape_char(c) + (e1 + p[0]) =~= escape_text(t) + p[0]);
        } else {
            assert(whole.drop_first() =~= e1 + x);
            assert(escape_char(c) =~= seq![whole[0]]);
            assert(escape_char(c) + (e1 + p[0]) =~= escape_text(t) + p[0]);
        }
        assert(prepend_piece(escape_char(c), prepend_piece(e1, p)) =~= prepend_piece(
            escape_text(t),
            p,
        ));
    }
}

/// The escaped form of a text is empty only for the empty text.
pub proof fn lemma_escape_empty(t: Seq<char>)
    ensures
        (escape_text(t).len() == 0) == (t.len() == 0),
{
    if t.len() > 0 {
        assert(escape_text(t).len() >= escape_char(t[0]).len());
    }
}

} // verus!
