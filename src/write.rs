//! Writing cards back to text.

use vstd::prelude::*;

use crate::card::{Card, ContentLine};
use crate::text::{push_char, push_str};
use crate::unfold::{
    fold_len, is_fold_space, lemma_unfold_append, lemma_unfold_plain, lines_of, split_lf, strip_cr,
    unfold_text,
};

verus! {

/// The number of octets that `c` takes in UTF-8.
pub open spec fn octets(c: char) -> int {
    if (c as u32) < 0x80 {
        1
    } else if (c as u32) < 0x800 {
        2
    } else if (c as u32) < 0x10000 {
        3
    } else {
        4
    }
}

/// The longest physical line, in octets.
pub const MAX_LINE_OCTETS: u64 = 75;

/// The folded form of `x` when `used` octets already stand on the current
/// physical line: before a character that would take the line past 75
/// octets, a CRLF and a space start a new one.
pub open spec fn fold_from(x: Seq<char>, used: int) -> Seq<char>
    decreases x.len(),
{
    if x.len() == 0 {
        x
    } else if used > 0 && used + octets(x[0]) > MAX_LINE_OCTETS {
        seq!['\r', '\n', ' ', x[0]] + fold_from(x.drop_first(), 1 + octets(x[0]))
    } else {
        seq![x[0]] + fold_from(x.drop_first(), used + octets(x[0]))
    }
}

fn char_octets(c: char) -> (r: u64)
    ensures
        r == octets(c),
{
    let v = c as u32;
    if v < 0x80 {
        1
    } else if v < 0x800 {
        2
    } else if v < 0x10000 {
        3
    } else {
        4
    }
}

/// Folds a logical line so that no physical line exceeds 75 octets.
pub fn fold_line(x: &str) -> (r: String)
    ensures
        r@ == fold_from(x@, 0),
{
    let n = x.unicode_len();
    let mut r = String::new();
    let mut used: u64 = 0;
    let mut i: usize = 0;
    assert(x@.subrange(0, n as int) =~= x@);
    assert(r@ + fold_from(x@, 0) =~= fold_from(x@, 0));
    while i < n
        invariant
            n == x@.len(),
            i <= n,
            used <= MAX_LINE_OCTETS,
            r@ + fold_from(x@.subrange(i as int, n as int), used as int) == fold_from(x@, 0),
        decreases n - i,
    {
        let c = x.get_char(i);
        let k = char_octets(c);
        let ghost rest = x@.subrange(i as int, n as int);
        let ghost before = r@;
        let ghost u = used as int;
        assert(rest.drop_first() =~= x@.subrange(i + 1, n as int));
        if used > 0 && used + k > MAX_LINE_OCTETS {
            push_char(&mut r, '\r');
            push_char(&mut r, '\n');
            push_char(&mut r, ' ');
            push_char(&mut r, c);
            used = 1 + k;
            assert(r@ =~= before + seq!['\r', '\n', ' ', c]);
        } else {
            push_char(&mut r, c);
            used = used + k;
        }
        assert(before + fold_from(rest, u) =~= r@ + fold_from(
            x@.subrange(i + 1, n as int),
            used as int,
        ));
        i = i + 1;
    }
    assert(x@.subrange(n as int, n as int) =~= Seq::<char>::empty());
    assert(r@ + Seq::<char>::empty() =~= r@);
    r
}

} // verus!

verus! {

proof fn lemma_fold_starts(x: Seq<char>, u: int)
    requires
        x.len() > 0,
        x[0] != '\n',
    ensures
        fold_from(x, u).len() > 0,
        fold_from(x, u)[0] != '\n',
{
}

/// Unfolding the folded form of a text without line feeds gives the text
/// back.
pub proof fn lemma_unfold_fold(x: Seq<char>, u: int)
    requires
        forall|j: int| 0 <= j < x.len() ==> x[j] != '\n',
    ensures
        unfold_text(fold_from(x, u)) == x,
    decreases x.len(),
{
    if x.len() > 0 {
        let rest = x.drop_first();
        let u2 = if u > 0 && u + octets(x[0]) > MAX_LINE_OCTETS {
            1 + octets(x[0])
        } else {
            u + octets(x[0])
        };
        lemma_unfold_fold(rest, u2);
        let f = fold_from(rest, u2);
        if rest.len() > 0 {
            lemma_fold_starts(rest, u2);
        }
        let t = seq![x[0]] + f;
        assert(fold_len(t) == 0);
        assert(t.drop_first() =~= f);
        assert(unfold_text(t) == seq![x[0]] + unfold_text(f));
        if u > 0 && u + octets(x[0]) > MAX_LINE_OCTETS {
            let w = seq!['\r', '\n', ' '] + t;
            assert(fold_from(x, u) =~= w);
            assert(fold_len(w) == 3);
            assert(w.subrange(3, w.len() as int) =~= t);
        } else {
            assert(fold_from(x, u) =~= t);
        }
        assert(seq![x[0]] + rest =~= x);
    }
}

} // verus!

verus! {

/// Whether a parameter value must be written in double quotes: it holds
/// `;`, `,` or `:`.
pub open spec fn needs_quotes(v: Seq<char>) -> bool {
    exists|j: int| 0 <= j < v.len() && (v[j] == ';' || v[j] == ',' || v[j] == ':')
}

/// The written form of a parameter value.
pub open spec fn param_value_text(v: Seq<char>) -> Seq<char> {
    if needs_quotes(v) {
        seq!['"'] + v + seq!['"']
    } else {
        v
    }
}

/// The written parameters: `;name=value` for each, in order.
pub open spec fn params_text(ps: Seq<(String, String)>) -> Seq<char>
    decreases ps.len(),
{
    if ps.len() == 0 {
        Seq::empty()
    } else {
        params_text(ps.drop_last()) + seq![';'] + ps.last().0@ + seq!['='] + param_value_text(
            ps.last().1@,
        )
    }
}

/// The written form of a property, before folding:
/// `[group "."] name *(";" param "=" value) ":" value`.
pub open spec fn line_text(l: ContentLine) -> Seq<char> {
    (match l.group {
        Some(g) => g@ + seq!['.'],
        None => Seq::empty(),
    }) + l.name@ + params_text(l.parameters@) + seq![':'] + l.value@
}

/// The written properties: each folded and ended by CRLF.
pub open spec fn lines_text(ps: Seq<ContentLine>) -> Seq<char>
    decreases ps.len(),
{
    if ps.len() == 0 {
        Seq::empty()
    } else {
        lines_text(ps.drop_last()) + fold_from(line_text(ps.last()), 0) + seq!['\r', '\n']
    }
}

/// The written form of a card.
pub open spec fn card_text(c: Card) -> Seq<char> {
    "BEGIN:VCARD\r\nVERSION:4.0\r\n"@ + lines_text(c.properties@) + "END:VCARD\r\n"@
}

fn quote_needed(v: &str) -> (r: bool)
    ensures
        r == needs_quotes(v@),
{
    let n = v.unicode_len();
    let mut i: usize = 0;
    while i < n
        invariant
            n == v@.len(),
            i <= n,
            forall|j: int| 0 <= j < i ==> !(v@[j] == ';' || v@[j] == ',' || v@[j] == ':'),
        decreases n - i,
    {
        let c = v.get_char(i);
        if c == ';' || c == ',' || c == ':' {
            return true;
        }
        i = i + 1;
    }
    false
}

fn write_line(l: &ContentLine) -> (r: String)
    ensures
        r@ == line_text(*l),
{
    let mut r = String::new();
    match &l.group {
        Some(g) => {
            push_str(&mut r, g.as_str());
            push_char(&mut r, '.');
        },
        None => {},
    }
    push_str(&mut r, l.name.as_str());
    let ghost head = r@;
    let mut k: usize = 0;
    assert(l.parameters@.subrange(0, 0) =~= Seq::<(String, String)>::empty());
    assert(head + Seq::<char>::empty() =~= head);
    while k < l.parameters.len()
        invariant
            k <= l.parameters@.len(),
            r@ == head + params_text(l.parameters@.subrange(0, k as int)),
        decreases l.parameters.len() - k,
    {
        let ghost ps = l.parameters@.subrange(0, k + 1);
        assert(ps.drop_last() =~= l.parameters@.subrange(0, k as int));
        push_char(&mut r, ';');
        push_str(&mut r, l.parameters[k].0.as_str());
        push_char(&mut r, '=');
        let v = l.parameters[k].1.as_str();
        if quote_needed(v) {
            push_char(&mut r, '"');
            push_str(&mut r, v);
            push_char(&mut r, '"');
        } else {
            push_str(&mut r, v);
        }
        assert(r@ =~= head + params_text(ps));
        k = k + 1;
    }
    assert(l.parameters@.subrange(0, l.parameters@.len() as int) =~= l.parameters@);
    push_char(&mut r, ':');
    push_str(&mut r, l.value.as_str());
    assert(r@ =~= line_text(*l));
    r
}

impl Card {
    /// Writes the card: `BEGIN:VCARD`, `VERSION:4.0`, each property folded
    /// at 75 octets, then `END:VCARD`, every line ended by CRLF.
    pub fn to_string(&self) -> (r: String)
        ensures
            r@ == card_text(*self),
    {
        let mut r = String::new();
        push_str(&mut r, "BEGIN:VCARD\r\nVERSION:4.0\r\n");
        let ghost head = r@;
        let mut k: usize = 0;
        assert(self.properties@.subrange(0, 0) =~= Seq::<ContentLine>::empty());
        assert(head + Seq::<char>::empty() =~= head);
        while k < self.properties.len()
            invariant
                k <= self.properties@.len(),
                r@ == head + lines_text(self.properties@.subrange(0, k as int)),
            decreases self.properties.len() - k,
        {
            let ghost ps = self.properties@.subrange(0, k + 1);
            assert(ps.drop_last() =~= self.properties@.subrange(0, k as int));
            let line = write_line(&self.properties[k]);
            push_str(&mut r, fold_line(line.as_str()).as_str());
            push_char(&mut r, '\r');
            push_char(&mut r, '\n');
            assert(r@ =~= head + lines_text(ps));
            k = k + 1;
        }
        assert(self.properties@.subrange(0, self.properties@.len() as int) =~= self.properties@);
        push_str(&mut r, "END:VCARD\r\n");
        assert(r@ =~= card_text(*self));
        r
    }
}

} // verus!

verus! {

/// Whether a written property can stand on a line of its own: it does not
/// begin with a space or tab, and holds no line feed.
pub open spec fn is_plain_line(t: Seq<char>) -> bool {
    &&& t.len() > 0
    &&& !is_fold_space(t[0])
    &&& forall|j: int| 0 <= j < t.len() ==> t[j] != '\n'
}

/// The written properties, unfolded: each on a line ended by CRLF.
pub open spec fn plain_lines(ps: Seq<ContentLine>) -> Seq<char>
    decreases ps.len(),
{
    if ps.len() == 0 {
        Seq::empty()
    } else {
        plain_lines(ps.drop_last()) + line_text(ps.last()) + seq!['\r', '\n']
    }
}

proof fn lemma_fold_ends(x: Seq<char>, u: int)
    requires
        x.len() > 0,
    ensures
        fold_from(x, u).len() > 0,
        fold_from(x, u).last() == x.last(),
        fold_from(x, u)[0] == x[0] || fold_from(x, u)[0] == '\r',
        u == 0 ==> fold_from(x, u)[0] == x[0],
    decreases x.len(),
{
    let rest = x.drop_first();
    let folds = u > 0 && u + octets(x[0]) > MAX_LINE_OCTETS;
    let u2 = if folds {
        1 + octets(x[0])
    } else {
        u + octets(x[0])
    };
    let pre = if folds {
        seq!['\r', '\n', ' ', x[0]]
    } else {
        seq![x[0]]
    };
    let g = fold_from(rest, u2);
    assert(fold_from(x, u) == pre + g);
    if rest.len() > 0 {
        lemma_fold_ends(rest, u2);
        assert(rest.last() == x.last());
        assert((pre + g).last() == g.last());
    } else {
        assert(g.len() == 0);
        assert(pre + g =~= pre);
    }
}

proof fn lemma_crlf_unfold(x: Seq<char>)
    requires
        x.len() > 0 ==> !is_fold_space(x[0]),
    ensures
        unfold_text(seq!['\r', '\n'] + x) == seq!['\r', '\n'] + unfold_text(x),
{
    let a = seq!['\r', '\n'] + x;
    assert(fold_len(a) == 0);
    assert(a.drop_first() =~= seq!['\n'] + x);
    let b = seq!['\n'] + x;
    assert(fold_len(b) == 0);
    assert(b.drop_first() =~= x);
    assert(unfold_text(b) == seq!['\n'] + unfold_text(x));
    assert(unfold_text(a) == seq!['\r'] + unfold_text(b));
    assert(seq!['\r'] + (seq!['\n'] + unfold_text(x)) =~= seq!['\r', '\n'] + unfold_text(x));
}

proof fn lemma_lines_unfold(ps: Seq<ContentLine>, x: Seq<char>)
    requires
        forall|k: int| 0 <= k < ps.len() ==> is_plain_line(line_text(#[trigger] ps[k])),
        x.len() > 0 ==> !is_fold_space(x[0]),
    ensures
        unfold_text(lines_text(ps) + x) == plain_lines(ps) + unfold_text(x),
    decreases ps.len(),
{
    if ps.len() == 0 {
        assert(lines_text(ps) + x =~= x);
        assert(plain_lines(ps) + unfold_text(x) =~= unfold_text(x));
    } else {
        let init = ps.drop_last();
        let t = line_text(ps.last());
        assert(is_plain_line(line_text(ps[ps.len() - 1])));
        let f = fold_from(t, 0);
        lemma_fold_ends(t, 0);
        let y = seq!['\r', '\n'] + x;
        let x2 = f + y;
        assert(forall|k: int| 0 <= k < init.len() ==> init[k] == ps[k]);
        lemma_lines_unfold(init, x2);
        assert(lines_text(ps) + x =~= lines_text(init) + x2);
        lemma_unfold_append(f, y);
        lemma_unfold_fold(t, 0);
        lemma_crlf_unfold(x);
        assert(plain_lines(init) + (t + (seq!['\r', '\n'] + unfold_text(x))) =~= plain_lines(ps)
            + unfold_text(x));
    }
}

/// Unfolding a written card gives `BEGIN:VCARD`, `VERSION:4.0`, each
/// property on a line of its own, and `END:VCARD`, when every written
/// property can stand on a line of its own.
pub proof fn lemma_card_text_unfolds(c: Card)
    requires
        forall|k: int|
            0 <= k < c.properties@.len() ==> is_plain_line(line_text(#[trigger] c.properties@[k])),
    ensures
        unfold_text(card_text(c)) == "BEGIN:VCARD\r\nVERSION:4.0\r\n"@ + plain_lines(c.properties@)
            + "END:VCARD\r\n"@,
{
    let b = "BEGIN:VCARD\r\nVERSION:4.0\r\n"@;
    let e = "END:VCARD\r\n"@;
    reveal_strlit("BEGIN:VCARD\r\nVERSION:4.0\r\n");
    reveal_strlit("END:VCARD\r\n");
    lemma_unfold_plain(b);
    lemma_unfold_plain(e);
    let ps = c.properties@;
    lemma_lines_unfold(ps, e);
    let rest = lines_text(ps) + e;
    if ps.len() > 0 {
        let t = line_text(ps[0]);
        assert(is_plain_line(t));
        assert(rest[0] == fold_from(line_text(ps.first()), 0)[0]) by {
            lemma_lines_first(ps);
        }
        lemma_fold_ends(t, 0);
    }
    lemma_unfold_append(b, rest);
    assert(card_text(c) =~= b + rest);
    assert(b + (plain_lines(ps) + e) =~= b + plain_lines(ps) + e);
}

proof fn lemma_lines_first(ps: Seq<ContentLine>)
    requires
        ps.len() > 0,
        is_plain_line(line_text(ps[0])),
    ensures
        lines_text(ps).len() > 0,
        lines_text(ps)[0] == fold_from(line_text(ps[0]), 0)[0],
    decreases ps.len(),
{
    lemma_fold_ends(line_text(ps[0]), 0);
    if ps.len() > 1 {
        let init = ps.drop_last();
        lemma_lines_first(init);
    } else {
        assert(lines_text(ps.drop_last()) =~= Seq::<char>::empty());
    }
}

} // verus!

verus! {

/// Lines joined, each followed by CRLF.
pub open spec fn crlf_join(ls: Seq<Seq<char>>) -> Seq<char>
    decreases ls.len(),
{
    if ls.len() == 0 {
        Seq::empty()
    } else {
        ls[0] + seq!['\r', '\n'] + crlf_join(ls.drop_first())
    }
}

/// The logical lines of a written card: `BEGIN:VCARD`, `VERSION:4.0`, the
/// written form of each property, and `END:VCARD`.
pub open spec fn written_lines(ps: Seq<ContentLine>) -> Seq<Seq<char>> {
    seq!["BEGIN:VCARD"@, "VERSION:4.0"@] + ps.map_values(|l: ContentLine| line_text(l)) + seq![
        "END:VCARD"@,
    ]
}

proof fn lemma_split_lf_line(x: Seq<char>, y: Seq<char>)
    requires
        forall|j: int| 0 <= j < x.len() ==> x[j] != '\n',
    ensures
        split_lf(x + seq!['\n'] + y) == seq![x] + split_lf(y),
    decreases x.len(),
{
    let t = x + seq!['\n'] + y;
    if x.len() == 0 {
        assert(t.drop_first() =~= y);
        assert(x =~= Seq::<char>::empty());
    } else {
        assert(t.drop_first() =~= x.drop_first() + seq!['\n'] + y);
        lemma_split_lf_line(x.drop_first(), y);
        let p = seq![x.drop_first()] + split_lf(y);
        assert(seq![x[0]] + x.drop_first() =~= x);
        assert(p.update(0, seq![x[0]] + p[0]) =~= seq![x] + split_lf(y));
    }
}

proof fn lemma_crlf_join_append(a: Seq<Seq<char>>, b: Seq<Seq<char>>)
    ensures
        crlf_join(a + b) == crlf_join(a) + crlf_join(b),
    decreases a.len(),
{
    if a.len() == 0 {
        assert(a + b =~= b);
        assert(crlf_join(a) + crlf_join(b) =~= crlf_join(b));
    } else {
        assert((a + b).drop_first() =~= a.drop_first() + b);
        lemma_crlf_join_append(a.drop_first(), b);
        assert(a[0] + seq!['\r', '\n'] + (crlf_join(a.drop_first()) + crlf_join(b)) =~= (a[0]
            + seq!['\r', '\n'] + crlf_join(a.drop_first())) + crlf_join(b));
    }
}

proof fn lemma_plain_lines_join(ps: Seq<ContentLine>)
    ensures
        plain_lines(ps) == crlf_join(ps.map_values(|l: ContentLine| line_text(l))),
    decreases ps.len(),
{
    if ps.len() > 0 {
        let init = ps.drop_last();
        lemma_plain_lines_join(init);
        let m = ps.map_values(|l: ContentLine| line_text(l));
        let mi = init.map_values(|l: ContentLine| line_text(l));
        assert(m =~= mi + seq![line_text(ps.last())]);
        lemma_crlf_join_append(mi, seq![line_text(ps.last())]);
        let one = seq![line_text(ps.last())];
        assert(one.drop_first() =~= Seq::<Seq<char>>::empty());
        assert(crlf_join(one.drop_first()) =~= Seq::<char>::empty());
        assert(crlf_join(one) =~= line_text(ps.last()) + seq!['\r', '\n']);
        assert(plain_lines(ps) =~= crlf_join(mi) + crlf_join(one));
    }
}

proof fn lemma_split_crlf_join(ls: Seq<Seq<char>>)
    requires
        forall|k: int, j: int| 0 <= k < ls.len() && 0 <= j < ls[k].len() ==> ls[k][j] != '\n',
    ensures
        split_lf(crlf_join(ls)) == ls.map_values(|l: Seq<char>| l.push('\r')) + seq![
            Seq::<char>::empty(),
        ],
    decreases ls.len(),
{
    if ls.len() == 0 {
        assert(split_lf(Seq::<char>::empty()) =~= seq![Seq::<char>::empty()]);
        assert(ls.map_values(|l: Seq<char>| l.push('\r')) + seq![Seq::<char>::empty()] =~= seq![
            Seq::<char>::empty(),
        ]);
    } else {
        let x = ls[0].push('\r');
        let rest = ls.drop_first();
        assert(forall|k: int, j: int|
            0 <= k < rest.len() && 0 <= j < rest[k].len() ==> rest[k][j] == ls[k + 1][j]);
        lemma_split_crlf_join(rest);
        assert(crlf_join(ls) =~= x + seq!['\n'] + crlf_join(rest));
        lemma_split_lf_line(x, crlf_join(rest));
        assert(ls.map_values(|l: Seq<char>| l.push('\r')) + seq![Seq::<char>::empty()] =~= seq![x]
            + (rest.map_values(|l: Seq<char>| l.push('\r')) + seq![Seq::<char>::empty()]));
    }
}

/// The logical lines that parsing reads from a written card are
/// `BEGIN:VCARD`, `VERSION:4.0`, the written form of each property, and
/// `END:VCARD`, when every written property can stand on a line of its own.
pub proof fn lemma_written_lines(c: Card)
    requires
        forall|k: int|
            0 <= k < c.properties@.len() ==> is_plain_line(line_text(#[trigger] c.properties@[k])),
    ensures
        lines_of(unfold_text(card_text(c))) == written_lines(c.properties@),
{
    let ps = c.properties@;
    lemma_card_text_unfolds(c);
    reveal_strlit("BEGIN:VCARD\r\nVERSION:4.0\r\n");
    reveal_strlit("END:VCARD\r\n");
    reveal_strlit("BEGIN:VCARD");
    reveal_strlit("VERSION:4.0");
    reveal_strlit("END:VCARD");
    let head = seq!["BEGIN:VCARD"@, "VERSION:4.0"@];
    let tail = seq!["END:VCARD"@];
    let m = ps.map_values(|l: ContentLine| line_text(l));
    assert(crlf_join(tail.drop_first()) =~= Seq::<char>::empty());
    assert(crlf_join(tail) =~= "END:VCARD\r\n"@);
    assert(crlf_join(head.drop_first().drop_first()) =~= Seq::<char>::empty());
    assert(crlf_join(head.drop_first()) =~= "VERSION:4.0"@ + seq!['\r', '\n']);
    assert(crlf_join(head) =~= "BEGIN:VCARD\r\nVERSION:4.0\r\n"@);
    lemma_plain_lines_join(ps);
    lemma_crlf_join_append(head, m);
    lemma_crlf_join_append(head + m, tail);
    let all = written_lines(ps);
    assert(all =~= head + m + tail);
    assert(unfold_text(card_text(c)) =~= crlf_join(all));
    assert forall|k: int, j: int| 0 <= k < all.len() && 0 <= j < all[k].len() implies all[k][j]
        != '\n' by {
        if 2 <= k < all.len() - 1 {
            assert(all[k] == line_text(ps[k - 2]));
            assert(is_plain_line(line_text(ps[k - 2])));
        }
    }
    lemma_split_crlf_join(all);
    let p = split_lf(crlf_join(all)).map_values(|l: Seq<char>| strip_cr(l));
    assert forall|k: int| 0 <= k < all.len() implies p[k] == all[k] by {
        assert(strip_cr(all[k].push('\r')) =~= all[k]);
    }
    assert(p.last() =~= Seq::<char>::empty());
    assert(p.drop_last() =~= all);
}

} // verus!
