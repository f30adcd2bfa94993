//! Command lines for a POSIX shell.

use crate::text;
use vstd::prelude::*;

verus! {

// ---------------------------------------------------------------- quoting

/// A character that no POSIX shell gives a meaning to within a word.
pub open spec fn is_plain(c: char) -> bool {
    text::is_alphanumeric(c) || c == '_' || c == '@' || c == '%' || c == '+' || c == '=' || c == ':'
        || c == ',' || c == '.' || c == '/' || c == '-'
}

/// A word that needs no quotes.
pub open spec fn is_plain_word(s: Seq<char>) -> bool {
    s.len() > 0 && forall|i: int| 0 <= i < s.len() ==> is_plain(#[trigger] s[i])
}

/// `s` with every single quote closed, escaped and reopened.
pub open spec fn escaped(s: Seq<char>) -> Seq<char>
    decreases s.len(),
{
    if s.len() == 0 {
        seq![]
    } else if s.last() == '\'' {
        escaped(s.drop_last()) + "'\\''"@
    } else {
        escaped(s.drop_last()).push(s.last())
    }
}

/// The argument as one word of a command line.
pub open spec fn quoted(arg: Seq<char>) -> Seq<char> {
    if is_plain_word(arg) {
        arg
    } else {
        "'"@ + escaped(arg) + "'"@
    }
}

/// The words in a row, with a space between neighbours.
pub open spec fn quoted_command(program: Seq<char>, args: Seq<Seq<char>>) -> Seq<char>
    decreases args.len(),
{
    if args.len() == 0 {
        quoted(program)
    } else {
        quoted_command(program, args.drop_last()) + " "@ + quoted(args.last())
    }
}

fn plain(c: char) -> (r: bool)
    ensures
        r == is_plain(c),
{
    text::alphanumeric(c) || c == '_' || c == '@' || c == '%' || c == '+' || c == '=' || c == ':'
        || c == ',' || c == '.' || c == '/' || c == '-'
}

fn plain_word(v: &Vec<char>) -> (r: bool)
    ensures
        r == is_plain_word(v@),
{
    let mut i: usize = 0;
    while i < v.len()
        invariant
            i <= v@.len(),
            forall|j: int| 0 <= j < i ==> is_plain(#[trigger] v@[j]),
        decreases v@.len() - i,
    {
        if !plain(v[i]) {
            return false;
        }
        i = i + 1;
    }
    v.len() > 0
}

/// Quote one argument for a POSIX shell.
pub fn shell_quote(arg: &str) -> (r: String)
    ensures
        r@ == quoted(arg@),
{
    let v = text::to_chars(arg);
    if plain_word(&v) {
        return arg.to_string();
    }
    // Single quotes protect everything except a single quote, which has to be
    // closed, escaped and reopened.
    let mut out = "'".to_string();
    let mut i: usize = 0;
    assert(out@ =~= "'"@ + escaped(v@.take(0)));
    while i < v.len()
        invariant
            i <= v@.len(),
            out@ == "'"@ + escaped(v@.take(i as int)),
        decreases v@.len() - i,
    {
        proof {
            assert(v@.take(i + 1).drop_last() =~= v@.take(i as int));
        }
        if v[i] == '\'' {
            out.append("'\\''");
        } else {
            out.push(v[i]);
        }
        assert(out@ =~= "'"@ + escaped(v@.take(i + 1)));
        i = i + 1;
    }
    assert(v@.take(i as int) =~= v@);
    out.append("'");
    out
}

/// Build one shell-safe command line from a program and its arguments.
pub fn quote_command(program: &str, args: &Vec<String>) -> (r: String)
    ensures
        r@ == quoted_command(program@, text::texts(args@)),
{
    let ghost all = text::texts(args@);
    let mut out = shell_quote(program);
    let mut i: usize = 0;
    while i < args.len()
        invariant
            i <= args@.len(),
            all == text::texts(args@),
            out@ == quoted_command(program@, all.take(i as int)),
        decreases args@.len() - i,
    {
        proof {
            assert(all.take(i + 1).drop_last() =~= all.take(i as int));
            assert(all.take(i + 1).last() == args@[i as int]@);
        }
        out.append(" ");
        out.append(shell_quote(args[i].as_str()).as_str());
        i = i + 1;
    }
    assert(all.take(i as int) =~= all);
    out
}

// ---------------------------------------------------------------- what a shell reads

/// How a shell takes the next character of a command line.
pub enum Quoting {
    /// Outside quotes.
    Bare,
    /// Between single quotes.
    Quoted,
    /// Right behind a backslash.
    Escaped,
}

/// How far a shell has read a command line.
pub struct Reading {
    /// The words that are complete.
    pub words: Seq<Seq<char>>,
    /// The word that has begun, if one has.
    pub current: Option<Seq<char>>,
    pub quoting: Quoting,
}

impl Reading {
    /// The word that has begun, or an empty one.
    pub open spec fn begun(self) -> Seq<char> {
        match self.current {
            Some(word) => word,
            None => seq![],
        }
    }

    /// `c` is taken as it is.
    pub open spec fn with(self, c: char) -> Reading {
        Reading {
            current: Some(self.begun().push(c)),
            quoting: match self.quoting {
                Quoting::Escaped => Quoting::Bare,
                q => q,
            },
            ..self
        }
    }
}

/// What a POSIX shell makes of one more character; nothing when the character has a
/// meaning there that goes beyond a plain list of words.
pub open spec fn read_char(r: Reading, c: char) -> Option<Reading> {
    match r.quoting {
        Quoting::Escaped => Some(r.with(c)),
        Quoting::Quoted => if c == '\'' {
            Some(Reading { quoting: Quoting::Bare, ..r })
        } else {
            Some(r.with(c))
        },
        Quoting::Bare => if c == ' ' {
            match r.current {
                Some(word) => Some(Reading { words: r.words.push(word), current: None, ..r }),
                None => Some(r),
            }
        } else if c == '\'' {
            Some(Reading { current: Some(r.begun()), quoting: Quoting::Quoted, ..r })
        } else if c == '\\' {
            Some(Reading { current: Some(r.begun()), quoting: Quoting::Escaped, ..r })
        } else if is_plain(c) {
            Some(r.with(c))
        } else {
            None
        },
    }
}

/// What a POSIX shell makes of some more characters.
pub open spec fn read_on(r: Reading, s: Seq<char>) -> Option<Reading>
    decreases s.len(),
{
    if s.len() == 0 {
        Some(r)
    } else {
        match read_on(r, s.drop_last()) {
            Some(before) => read_char(before, s.last()),
            None => None,
        }
    }
}

/// The start of a command line.
pub open spec fn unread() -> Reading {
    Reading { words: seq![], current: None, quoting: Quoting::Bare }
}

/// The words that a POSIX shell takes a command line for; nothing when the line holds
/// anything but plain, quoted and escaped characters and the spaces between words.
pub open spec fn shell_words(line: Seq<char>) -> Option<Seq<Seq<char>>> {
    match read_on(unread(), line) {
        Some(Reading { words, current, quoting: Quoting::Bare }) => match current {
            Some(word) => Some(words.push(word)),
            None => Some(words),
        },
        _ => None,
    }
}

proof fn lemma_read_append(r: Reading, a: Seq<char>, b: Seq<char>)
    ensures
        read_on(r, a + b) == match read_on(r, a) {
            Some(m) => read_on(m, b),
            None => None,
        },
    decreases b.len(),
{
    if b.len() == 0 {
        assert(a + b =~= a);
    } else {
        lemma_read_append(r, a, b.drop_last());
        assert((a + b).drop_last() =~= a + b.drop_last());
        assert((a + b).last() == b.last());
    }
}

proof fn lemma_read_push(r: Reading, a: Seq<char>, c: char)
    ensures
        read_on(r, a.push(c)) == match read_on(r, a) {
            Some(m) => read_char(m, c),
            None => None,
        },
{
    assert(a.push(c).drop_last() =~= a);
}

/// Reading a plain word adds its characters.
proof fn lemma_read_plain(r: Reading, s: Seq<char>)
    requires
        r.quoting is Bare,
        forall|i: int| 0 <= i < s.len() ==> is_plain(#[trigger] s[i]),
    ensures
        s.len() > 0 ==> read_on(r, s) == Some(
            Reading { current: Some(r.begun() + s), quoting: Quoting::Bare, ..r },
        ),
    decreases s.len(),
{
    if s.len() > 0 {
        let front = s.drop_last();
        assert forall|i: int| 0 <= i < front.len() implies is_plain(#[trigger] front[i]) by {
            assert(front[i] == s[i]);
        }
        lemma_read_plain(r, front);
        assert(is_plain(s[s.len() - 1]));
        if front.len() > 0 {
            assert((r.begun() + front).push(s.last()) =~= r.begun() + s);
        } else {
            assert(r.begun().push(s.last()) =~= r.begun() + s);
        }
    }
}

/// Within single quotes, an escaped text is read as the text.
proof fn lemma_read_escaped(r: Reading, s: Seq<char>)
    requires
        r.quoting is Quoted,
        r.current is Some,
    ensures
        read_on(r, escaped(s)) == Some(
            Reading { current: Some(r.begun() + s), quoting: Quoting::Quoted, ..r },
        ),
    decreases s.len(),
{
    if s.len() == 0 {
        assert(r.begun() + s =~= r.begun());
    } else {
        let front = s.drop_last();
        let e = escaped(front);
        lemma_read_escaped(r, front);
        let m = Reading { current: Some(r.begun() + front), quoting: Quoting::Quoted, ..r };
        assert((r.begun() + front).push(s.last()) =~= r.begun() + s);
        if s.last() == '\'' {
            reveal_strlit("'\\''");
            assert(escaped(s) =~= e.push('\'').push('\\').push('\'').push('\''));
            lemma_read_push(r, e, '\'');
            lemma_read_push(r, e.push('\''), '\\');
            lemma_read_push(r, e.push('\'').push('\\'), '\'');
            lemma_read_push(r, e.push('\'').push('\\').push('\''), '\'');
        } else {
            lemma_read_push(r, e, s.last());
        }
    }
}

/// Wherever a word may begin, a quoted argument is read as the argument.
proof fn lemma_read_quoted(r: Reading, arg: Seq<char>)
    requires
        r.quoting is Bare,
        r.current is None,
    ensures
        read_on(r, quoted(arg)) == Some(
            Reading { current: Some(arg), quoting: Quoting::Bare, ..r },
        ),
{
    assert(r.begun() + arg =~= arg);
    if is_plain_word(arg) {
        lemma_read_plain(r, arg);
    } else {
        reveal_strlit("'");
        let open = Reading { current: Some(seq![]), quoting: Quoting::Quoted, ..r };
        let empty = Seq::<char>::empty();
        assert(quoted(arg) =~= (empty.push('\'') + escaped(arg)).push('\''));
        lemma_read_push(r, empty, '\'');
        assert(read_on(r, empty.push('\'')) == Some(open));
        lemma_read_append(r, empty.push('\''), escaped(arg));
        lemma_read_escaped(open, arg);
        assert(open.begun() + arg =~= arg);
        lemma_read_push(r, empty.push('\'') + escaped(arg), '\'');
    }
}

proof fn lemma_read_command(program: Seq<char>, args: Seq<Seq<char>>)
    ensures
        ({
            let all = seq![program] + args;
            read_on(unread(), quoted_command(program, args)) == Some(
                Reading {
                    words: all.drop_last(),
                    current: Some(all.last()),
                    quoting: Quoting::Bare,
                },
            )
        }),
    decreases args.len(),
{
    let all = seq![program] + args;
    if args.len() == 0 {
        lemma_read_quoted(unread(), program);
        assert(all.drop_last() =~= seq![]);
    } else {
        reveal_strlit(" ");
        let front = quoted_command(program, args.drop_last());
        let shorter = seq![program] + args.drop_last();
        lemma_read_command(program, args.drop_last());
        assert(front + " "@ =~= front.push(' '));
        lemma_read_push(unread(), front, ' ');
        assert(shorter.drop_last().push(shorter.last()) =~= shorter);
        let m = Reading { words: shorter, current: None, quoting: Quoting::Bare };
        assert(read_on(unread(), front + " "@) == Some(m));
        lemma_read_append(unread(), front + " "@, quoted(args.last()));
        lemma_read_quoted(m, args.last());
        assert(all.drop_last() =~= shorter);
    }
}

/// A POSIX shell reads a quoted command as the program and its arguments, whatever
/// characters they hold: nothing in them is taken for anything but itself.
pub proof fn law_quoting_is_inert(program: Seq<char>, args: Seq<Seq<char>>)
    ensures
        shell_words(quoted_command(program, args)) == Some(seq![program] + args),
{
    let all = seq![program] + args;
    lemma_read_command(program, args);
    assert(all.drop_last().push(all.last()) =~= all);
}

/// A word is left as it is only where it is made of characters that no shell takes for
/// anything but themselves; anything else, and the empty word, goes between quotes.
pub proof fn law_when_words_are_quoted(arg: Seq<char>)
    ensures
        quoted(arg) == arg ==> arg.len() > 0 && forall|i: int|
            0 <= i < arg.len() ==> {
                let c = #[trigger] arg[i];
                &&& !text::is_white(c)
                &&& c != '\'' && c != '"' && c != '\\' && c != '$' && c != '`' && c != ';'
                &&& c != '&' && c != '|' && c != '<' && c != '>' && c != '(' && c != ')'
                &&& c != '*' && c != '?' && c != '[' && c != ']' && c != '{' && c != '}'
                &&& c != '~' && c != '#' && c != '!' && c != '^' && c as int <= 127
            },
        quoted(arg) != arg ==> quoted(arg).len() >= 2 && quoted(arg)[0] == '\'' && quoted(
            arg,
        ).last() == '\'',
        arg.len() > 0 && (forall|i: int|
            0 <= i < arg.len() ==> text::is_alphanumeric(#[trigger] arg[i])) ==> quoted(arg) == arg,
        arg.len() > 0 && !arg.contains('\'') && quoted(arg) != arg ==> quoted(arg) == seq!['\'']
            + arg + seq!['\''],
{
    reveal_strlit("'");
    assert("'"@ =~= seq!['\'']);
    if !is_plain_word(arg) {
        lemma_escaped_longer(arg);
        assert(quoted(arg).len() == escaped(arg).len() + 2);
    }
    if !arg.contains('\'') {
        lemma_nothing_escaped(arg);
    }
}

proof fn lemma_escaped_longer(s: Seq<char>)
    ensures
        escaped(s).len() >= s.len(),
    decreases s.len(),
{
    if s.len() > 0 {
        reveal_strlit("'\\''");
        lemma_escaped_longer(s.drop_last());
    }
}

proof fn lemma_nothing_escaped(s: Seq<char>)
    requires
        !s.contains('\''),
    ensures
        escaped(s) == s,
    decreases s.len(),
{
    if s.len() > 0 {
        let front = s.drop_last();
        assert(s[s.len() - 1] != '\'');
        assert forall|i: int| 0 <= i < front.len() implies front[i] != '\'' by {
            assert(s[i] != '\'');
        }
        lemma_nothing_escaped(front);
        assert(front.push(s.last()) =~= s);
    } else {
        assert(escaped(s) =~= s);
    }
}

/// A command is its program and its arguments, each quoted on its own, with a space between
/// neighbours.
pub proof fn law_quoted_command(program: Seq<char>, args: Seq<Seq<char>>, arg: Seq<char>)
    ensures
        quoted_command(program, Seq::empty()) == quoted(program),
        quoted_command(program, args.push(arg)) == quoted_command(program, args).push(' ')
            + quoted(arg),
{
    reveal_strlit(" ");
    assert(args.push(arg).drop_last() =~= args);
    let q = quoted_command(program, args);
    assert(q + " "@ =~= q.push(' '));
}

} // verus!
