//! Taking text apart and putting it back together.

use crate::text;
use vstd::prelude::*;

verus! {

broadcast use text::lemma_texts_push;

// ---------------------------------------------------------------- fields

/// What lies between two fields of a text.
#[derive(Clone, Copy, Debug, PartialEq, Eq, Structural)]
pub enum Separator {
    /// White space.
    White,
    /// Everything but ASCII letters and digits.
    NotAlphanumeric,
}

impl Separator {
    pub open spec fn admits(self, c: char) -> bool {
        match self {
            Separator::White => text::is_white(c),
            Separator::NotAlphanumeric => !text::is_alphanumeric(c),
        }
    }

    fn test(self, c: char) -> (r: bool)
        ensures
            r == self.admits(c),
    {
        match self {
            Separator::White => text::white(c),
            Separator::NotAlphanumeric => !text::alphanumeric(c),
        }
    }
}

/// The fields of `s`: its longest runs of characters that are no separators, in order.
pub open spec fn fields(s: Seq<char>, sep: Separator) -> Seq<Seq<char>>
    decreases s.len(),
{
    if s.len() == 0 {
        seq![]
    } else {
        let before = fields(s.drop_last(), sep);
        if sep.admits(s.last()) {
            before
        } else if s.len() >= 2 && !sep.admits(s[s.len() - 2]) {
            before.drop_last().push(before.last().push(s.last()))
        } else {
            before.push(seq![s.last()])
        }
    }
}

/// The words of `s`, with white space between them.
pub open spec fn words(s: Seq<char>) -> Seq<Seq<char>> {
    fields(s, Separator::White)
}

/// A field: at least one character, and no separator among them.
pub open spec fn is_field(f: Seq<char>, sep: Separator) -> bool {
    &&& f.len() > 0
    &&& forall|i: int| 0 <= i < f.len() ==> !sep.admits(#[trigger] f[i])
}

/// Every field is made of characters that are no separators, and a text that ends in such
/// a character has a field that ends in it.
pub proof fn lemma_fields_shape(s: Seq<char>, sep: Separator)
    ensures
        forall|k: int| 0 <= k < fields(s, sep).len() ==> is_field(#[trigger] fields(s, sep)[k], sep),
        s.len() > 0 && !sep.admits(s.last()) ==> fields(s, sep).len() > 0 && fields(
            s,
            sep,
        ).last().last() == s.last(),
    decreases s.len(),
{
    if s.len() > 0 {
        let t = s.drop_last();
        lemma_fields_shape(t, sep);
        if t.len() > 0 {
            assert(t.last() == s[s.len() - 2]);
        }
        let before = fields(t, sep);
        let all = fields(s, sep);
        assert forall|k: int| 0 <= k < all.len() implies is_field(#[trigger] all[k], sep) by {
            if k < before.len() {
                assert(is_field(before[k], sep));
            }
            if !sep.admits(s.last()) && k == all.len() - 1 {
                let f = all[k];
                assert forall|i: int| 0 <= i < f.len() implies !sep.admits(#[trigger] f[i]) by {
                    if i < f.len() - 1 {
                        assert(before.last()[i] == f[i]);
                    }
                }
            }
        }
    }
}

/// A field put behind a text that is empty or ends in a separator is the last field.
pub proof fn lemma_fields_append(a: Seq<char>, f: Seq<char>, sep: Separator)
    requires
        a.len() == 0 || sep.admits(a.last()),
        is_field(f, sep),
    ensures
        fields(a + f, sep) == fields(a, sep).push(f),
    decreases f.len(),
{
    let s = a + f;
    assert(s.last() == f.last());
    assert(s.drop_last() =~= a + f.drop_last());
    assert(!sep.admits(f[f.len() - 1]));
    if f.len() == 1 {
        assert(a + f.drop_last() =~= a);
        if s.len() >= 2 {
            assert(s[s.len() - 2] == a.last());
        }
        assert(seq![s.last()] =~= f);
    } else {
        let g = f.drop_last();
        assert forall|i: int| 0 <= i < g.len() implies !sep.admits(#[trigger] g[i]) by {
            assert(g[i] == f[i]);
        }
        lemma_fields_append(a, g, sep);
        assert(s[s.len() - 2] == f[f.len() - 2]);
        assert(g.push(f.last()) =~= f);
        let before = fields(s.drop_last(), sep);
        assert(before == fields(a, sep).push(g));
        assert(before.drop_last() =~= fields(a, sep));
    }
}

/// A separator at the end adds no field.
pub proof fn lemma_fields_separator(a: Seq<char>, c: char, sep: Separator)
    requires
        sep.admits(c),
    ensures
        fields(a.push(c), sep) == fields(a, sep),
{
    assert(a.push(c).drop_last() =~= a);
}

/// The fields of `s`.
pub fn split_fields(s: &str, sep: Separator) -> (r: Vec<String>)
    ensures
        text::texts(r@) == fields(s@, sep),
{
    let v = text::to_chars(s);
    let mut out: Vec<String> = Vec::new();
    let mut current = String::new();
    let mut i: usize = 0;
    proof {
        assert(text::texts(out@) =~= fields(v@.take(0), sep));
    }
    while i < v.len()
        invariant
            v@ == s@,
            i <= v@.len(),
            current@.len() > 0 <==> i > 0 && !sep.admits(v@[i - 1]),
            current@.len() > 0 ==> text::texts(out@).push(current@) == fields(v@.take(i as int), sep),
            current@.len() == 0 ==> text::texts(out@) == fields(v@.take(i as int), sep),
        decreases v@.len() - i,
    {
        let c = v[i];
        proof {
            let t = v@.take(i + 1);
            assert(t.drop_last() =~= v@.take(i as int));
            assert(t.last() == c);
            if i > 0 {
                assert(t[t.len() - 2] == v@[i - 1]);
            }
            assert(text::texts(out@).push(current@).drop_last() =~= text::texts(out@));
            assert(seq![c] =~= current@.push(c) || current@.len() > 0);
        }
        if sep.test(c) {
            if !current.as_str().is_empty() {
                out.push(current);
                current = String::new();
            }
        } else {
            current.push(c);
        }
        i = i + 1;
    }
    assert(v@.take(i as int) =~= v@);
    if !current.as_str().is_empty() {
        out.push(current);
    }
    out
}

/// The words of `s`.
pub fn split_words(s: &str) -> (r: Vec<String>)
    ensures
        text::texts(r@) == words(s@),
{
    split_fields(s, Separator::White)
}

// ---------------------------------------------------------------- pieces and lines

/// `s` cut at every `c`: one piece more than there are cuts, empty pieces among them.
pub open spec fn pieces(s: Seq<char>, c: char) -> Seq<Seq<char>>
    decreases s.len(),
{
    if s.len() == 0 {
        seq![seq![]]
    } else {
        let before = pieces(s.drop_last(), c);
        if s.last() == c {
            before.push(seq![])
        } else {
            before.drop_last().push(before.last().push(s.last()))
        }
    }
}

pub proof fn lemma_pieces_nonempty(s: Seq<char>, c: char)
    ensures
        pieces(s, c).len() > 0,
    decreases s.len(),
{
    if s.len() > 0 {
        lemma_pieces_nonempty(s.drop_last(), c);
    }
}

/// `s` cut at every `c`.
pub fn split_pieces(s: &str, c: char) -> (r: Vec<String>)
    ensures
        text::texts(r@) == pieces(s@, c),
{
    let v = text::to_chars(s);
    let mut out: Vec<String> = Vec::new();
    let mut current = String::new();
    let mut i: usize = 0;
    proof {
        assert(text::texts(out@).push(current@) =~= pieces(v@.take(0), c));
    }
    while i < v.len()
        invariant
            v@ == s@,
            i <= v@.len(),
            text::texts(out@).push(current@) == pieces(v@.take(i as int), c),
        decreases v@.len() - i,
    {
        let x = v[i];
        proof {
            let t = v@.take(i + 1);
            assert(t.drop_last() =~= v@.take(i as int));
            assert(t.last() == x);
            assert(text::texts(out@).push(current@).drop_last() =~= text::texts(out@));
        }
        if x == c {
            out.push(current);
            current = String::new();
            assert(current@ =~= seq![]);
        } else {
            current.push(x);
        }
        i = i + 1;
    }
    assert(v@.take(i as int) =~= v@);
    out.push(current);
    out
}

/// The lines of `s` as they stand, without the line feed that ends each of them. Text
/// after the last line feed is a line of its own, unless there is none.
pub open spec fn raw_lines(s: Seq<char>) -> Seq<Seq<char>> {
    let p = pieces(s, '\n');
    if p.last().len() == 0 {
        p.drop_last()
    } else {
        p
    }
}

/// A line that a line feed ended, without the carriage return in front of that line feed.
pub open spec fn strip_return(line: Seq<char>) -> Seq<char> {
    if line.len() > 0 && line.last() == '\r' {
        line.drop_last()
    } else {
        line
    }
}

/// The lines of `s`, each without the line feed, or the carriage return and line feed,
/// that ends it.
pub open spec fn lines(s: Seq<char>) -> Seq<Seq<char>> {
    let p = pieces(s, '\n');
    Seq::new(
        raw_lines(s).len(),
        |i: int|
            if i < p.len() - 1 {
                strip_return(p[i])
            } else {
                p[i]
            },
    )
}

/// The lines of `s` as they stand.
pub fn split_raw_lines(s: &str) -> (r: Vec<String>)
    ensures
        text::texts(r@) == raw_lines(s@),
{
    let mut out = split_pieces(s, '\n');
    proof {
        lemma_pieces_nonempty(s@, '\n');
        assert(text::texts(out@).last() == out@.last()@);
        assert(text::texts(out@.drop_last()) =~= text::texts(out@).drop_last());
    }
    let n: usize = out.len();
    if out[n - 1].as_str().is_empty() {
        let last = out.pop();
    }
    out
}

fn without_return(s: &str) -> (r: String)
    ensures
        r@ == strip_return(s@),
{
    let v = text::to_chars(s);
    let n: usize = v.len();
    if n > 0 && v[n - 1] == '\r' {
        assert(v@.subrange(0, n - 1) =~= v@.drop_last());
        text::from_range(&v, 0, n - 1)
    } else {
        s.to_string()
    }
}

/// The lines of `s`.
pub fn split_lines(s: &str) -> (r: Vec<String>)
    ensures
        text::texts(r@) == lines(s@),
{
    let p = split_pieces(s, '\n');
    proof {
        lemma_pieces_nonempty(s@, '\n');
    }
    let n: usize = p.len() - 1;
    let mut out: Vec<String> = Vec::new();
    let mut i: usize = 0;
    while i < n
        invariant
            n == p@.len() - 1,
            i <= n,
            text::texts(p@) == pieces(s@, '\n'),
            text::texts(out@).len() == i,
            forall|j: int| 0 <= j < i ==> #[trigger] text::texts(out@)[j] == strip_return(p@[j]@),
        decreases n - i,
    {
        let line = without_return(p[i].as_str());
        out.push(line);
        i = i + 1;
    }
    if !p[n].as_str().is_empty() {
        out.push(p[n].clone());
    }
    proof {
        assert(text::texts(p@).last() == p@[n as int]@);
        assert forall|j: int| 0 <= j < out@.len() implies #[trigger] text::texts(out@)[j] == lines(
            s@,
        )[j] by {
            assert(text::texts(p@)[j] == p@[j]@);
        }
        assert(text::texts(out@) =~= lines(s@));
    }
    out
}

// ---------------------------------------------------------------- joining

/// The texts of `parts` in a row, with `sep` between neighbours.
pub open spec fn join(parts: Seq<Seq<char>>, sep: Seq<char>) -> Seq<char>
    decreases parts.len(),
{
    if parts.len() == 0 {
        seq![]
    } else if parts.len() == 1 {
        parts[0]
    } else {
        join(parts.drop_last(), sep) + sep + parts.last()
    }
}

/// The strings of `parts` in a row, with `sep` between neighbours.
pub fn join_texts(parts: &Vec<String>, sep: &str) -> (r: String)
    ensures
        r@ == join(text::texts(parts@), sep@),
{
    let mut out = String::new();
    let mut i: usize = 0;
    let ghost all = text::texts(parts@);
    assert(out@ =~= join(all.take(0), sep@));
    while i < parts.len()
        invariant
            all == text::texts(parts@),
            i <= parts@.len(),
            out@ == join(all.take(i as int), sep@),
        decreases parts@.len() - i,
    {
        proof {
            assert(all.take(i + 1).drop_last() =~= all.take(i as int));
            assert(all.take(i + 1).last() == parts@[i as int]@);
        }
        if i > 0 {
            out.append(sep);
        } else {
            assert(out@ =~= seq![]);
            assert(out@ + parts@[0]@ =~= parts@[0]@);
        }
        out.append(parts[i].as_str());
        i = i + 1;
    }
    assert(all.take(i as int) =~= all);
    out
}

/// What was cut at every `c` is put together again by joining with `c`.
pub proof fn law_join_pieces(s: Seq<char>, c: char)
    ensures
        join(pieces(s, c), seq![c]) == s,
    decreases s.len(),
{
    let p = pieces(s, c);
    if s.len() == 0 {
        assert(p[0] =~= s);
    } else {
        let t = s.drop_last();
        law_join_pieces(t, c);
        lemma_pieces_nonempty(t, c);
        let q = pieces(t, c);
        assert(t.push(s.last()) =~= s);
        if s.last() == c {
            assert(p.drop_last() =~= q);
            assert(join(p, seq![c]) =~= t + seq![c] + seq![]);
            assert(t + seq![c] + seq![] =~= s);
        } else if q.len() == 1 {
            assert(p =~= seq![q[0].push(s.last())]);
        } else {
            assert(p.drop_last() =~= q.drop_last());
            let front = join(q.drop_last(), seq![c]) + seq![c];
            assert(front + q.last().push(s.last()) =~= (front + q.last()).push(s.last()));
        }
    }
}

/// The pieces of two texts with a cut between them.
pub proof fn lemma_pieces_concat(a: Seq<char>, b: Seq<char>, c: char)
    ensures
        pieces(a.push(c) + b, c) == pieces(a, c) + pieces(b, c),
    decreases b.len(),
{
    let s = a.push(c) + b;
    lemma_pieces_nonempty(b, c);
    if b.len() == 0 {
        assert(s =~= a.push(c));
        assert(s.drop_last() =~= a);
        assert(pieces(s, c) =~= pieces(a, c) + pieces(b, c));
    } else {
        let d = b.drop_last();
        lemma_pieces_concat(a, d, c);
        lemma_pieces_nonempty(d, c);
        assert(s.drop_last() =~= a.push(c) + d);
        assert(s.last() == b.last());
        assert(pieces(s, c) =~= pieces(a, c) + pieces(b, c));
    }
}

/// A text without `c` is one piece.
pub proof fn lemma_pieces_single(s: Seq<char>, c: char)
    requires
        !s.contains(c),
    ensures
        pieces(s, c) == seq![s],
    decreases s.len(),
{
    if s.len() == 0 {
        assert(s =~= seq![]);
    } else {
        let t = s.drop_last();
        assert(s[s.len() - 1] != c);
        assert forall|i: int| 0 <= i < t.len() implies t[i] != c by {
            assert(s[i] != c);
        }
        lemma_pieces_single(t, c);
        assert(t.push(s.last()) =~= s);
        assert(pieces(s, c) =~= seq![s]);
    }
}

/// No piece contains the character that the text was cut at.
pub proof fn lemma_pieces_free(s: Seq<char>, c: char)
    ensures
        forall|k: int| 0 <= k < pieces(s, c).len() ==> !(#[trigger] pieces(s, c)[k]).contains(c),
    decreases s.len(),
{
    let p = pieces(s, c);
    if s.len() > 0 {
        let t = s.drop_last();
        lemma_pieces_free(t, c);
        lemma_pieces_nonempty(t, c);
        let q = pieces(t, c);
        assert forall|k: int| 0 <= k < p.len() implies !(#[trigger] p[k]).contains(c) by {
            if k < q.len() - 1 {
                assert(p[k] == q[k]);
            } else if s.last() != c {
                assert(!q[q.len() - 1].contains(c));
                assert forall|i: int| 0 <= i < p[k].len() implies p[k][i] != c by {
                    if i < q.last().len() {
                        assert(q.last()[i] == p[k][i]);
                    }
                }
            } else if k < q.len() {
                assert(p[k] == q[k]);
            }
        }
    }
}

/// Joining texts without `c` by `c` and cutting at `c` gives them back.
pub proof fn law_pieces_join(parts: Seq<Seq<char>>, c: char)
    requires
        parts.len() > 0,
        forall|k: int| 0 <= k < parts.len() ==> !(#[trigger] parts[k]).contains(c),
    ensures
        pieces(join(parts, seq![c]), c) == parts,
    decreases parts.len(),
{
    let last = parts.last();
    assert(!parts[parts.len() - 1].contains(c));
    lemma_pieces_single(last, c);
    if parts.len() == 1 {
        assert(seq![last] =~= parts);
    } else {
        let front = parts.drop_last();
        assert forall|k: int| 0 <= k < front.len() implies !(#[trigger] front[k]).contains(c) by {
            assert(front[k] == parts[k]);
        }
        law_pieces_join(front, c);
        let j = join(front, seq![c]);
        assert(j + seq![c] + last =~= j.push(c) + last);
        lemma_pieces_concat(j, last, c);
        assert(front + seq![last] =~= parts);
    }
}

/// The fields of two texts with a separator between them are the fields of the one and then
/// those of the other.
pub proof fn law_fields_concat(a: Seq<char>, c: char, b: Seq<char>, sep: Separator)
    requires
        sep.admits(c),
    ensures
        fields(a.push(c) + b, sep) == fields(a, sep) + fields(b, sep),
    decreases b.len(),
{
    let s = a.push(c) + b;
    if b.len() == 0 {
        assert(s =~= a.push(c));
        lemma_fields_separator(a, c, sep);
        assert(fields(a, sep) + fields(b, sep) =~= fields(a, sep));
    } else {
        let d = b.drop_last();
        law_fields_concat(a, c, d, sep);
        assert(s.drop_last() =~= a.push(c) + d);
        assert(s.last() == b.last());
        let before = fields(s.drop_last(), sep);
        if sep.admits(b.last()) {
            assert(fields(s, sep) == before);
        } else {
            if b.len() >= 2 {
                assert(s[s.len() - 2] == b[b.len() - 2]);
                if !sep.admits(b[b.len() - 2]) {
                    lemma_fields_shape(d, sep);
                    assert(d.last() == b[b.len() - 2]);
                    assert(before.last() == fields(d, sep).last());
                }
            } else {
                assert(s[s.len() - 2] == c);
            }
            assert(fields(s, sep) =~= fields(a, sep) + fields(b, sep));
        }
    }
}

/// A text without separators is one field, and one of nothing but separators has none.
pub proof fn law_single_field(s: Seq<char>, sep: Separator)
    ensures
        is_field(s, sep) ==> fields(s, sep) == seq![s],
        (forall|i: int| 0 <= i < s.len() ==> sep.admits(#[trigger] s[i])) ==> fields(s, sep).len()
            == 0,
    decreases s.len(),
{
    let none = Seq::<char>::empty();
    if is_field(s, sep) {
        lemma_fields_append(none, s, sep);
        assert(none + s =~= s);
        assert(fields(none, sep).push(s) =~= seq![s]);
    } else if s.len() > 0 && (forall|i: int|
        0 <= i < s.len() ==> sep.admits(#[trigger] s[i])) {
        let front = s.drop_last();
        assert forall|i: int| 0 <= i < front.len() implies sep.admits(#[trigger] front[i]) by {
            assert(front[i] == s[i]);
        }
        law_single_field(front, sep);
        assert(sep.admits(s[s.len() - 1]));
    }
}

/// Each line that a line feed ends is a line of its own, without the line feed and without
/// a carriage return in front of it, and what follows has its own lines.
pub proof fn law_lines(line: Seq<char>, rest: Seq<char>)
    requires
        !line.contains('\n'),
    ensures
        lines(line.push('\n') + rest) == seq![strip_return(line)] + lines(rest),
        line.len() > 0 ==> lines(line) == seq![line],
        line.len() == 0 ==> lines(line).len() == 0,
{
    let s = line.push('\n') + rest;
    lemma_pieces_concat(line, rest, '\n');
    lemma_pieces_single(line, '\n');
    lemma_pieces_nonempty(rest, '\n');
    assert(pieces(s, '\n') == seq![line] + pieces(rest, '\n'));
    assert(lines(s) =~= seq![strip_return(line)] + lines(rest));
    if line.len() > 0 {
        assert(lines(line) =~= seq![line]);
    }
}

/// A carriage return at the end of a line is dropped, and nothing else is.
pub proof fn law_strip_return(line: Seq<char>)
    ensures
        strip_return(line.push('\r')) == line,
        line.len() == 0 || line.last() != '\r' ==> strip_return(line) == line,
{
    assert(line.push('\r').drop_last() =~= line);
}

/// The lines of two texts, where the first ends a line, are those of the one and then those
/// of the other.
pub proof fn law_lines_concat(a: Seq<char>, b: Seq<char>)
    ensures
        lines(a.push('\n') + b) == lines(a.push('\n')) + lines(b),
{
    let none = Seq::<char>::empty();
    lemma_pieces_concat(a, b, '\n');
    lemma_pieces_concat(a, none, '\n');
    lemma_pieces_nonempty(a, '\n');
    lemma_pieces_nonempty(b, '\n');
    assert(a.push('\n') + none =~= a.push('\n'));
    lemma_pieces_single(none, '\n');
    let x = pieces(a, '\n');
    let y = pieces(b, '\n');
    assert((x + y).last() == y.last());
    assert((x + pieces(none, '\n')).last().len() == 0);
    assert(lines(a.push('\n') + b) =~= lines(a.push('\n')) + lines(b));
}

} // verus!
