//! Taking this plugin's keybindings out of Herdr's config, line by line.
//!
//! Line-based on purpose: round-tripping through a TOML serialiser would reformat the whole
//! file and throw away the user's comments.

use crate::split;
use crate::text;
use vstd::prelude::*;

verus! {

broadcast use text::lemma_texts_push;

/// A line that opens a table of whatever kind.
pub open spec fn opens_table(line: Seq<char>) -> bool {
    text::starts_with_char(text::trim_start(line), '[')
}

/// A part of a dotted key that says `name`: bare or quoted, with white space around it or
/// without.
pub open spec fn says(part: Seq<char>, name: Seq<char>) -> bool {
    let t = text::trimmed(part);
    t == name || t == "\""@ + name + "\""@ || t == "'"@ + name + "'"@
}

/// What stands between the double brackets is the key `keys.command`.
pub open spec fn is_binding_key(key: Seq<char>) -> bool {
    let parts = split::pieces(key, '.');
    parts.len() == 2 && says(parts[0], "keys"@) && says(parts[1], "command"@)
}

/// A line that opens a keybinding: `[[keys.command]]`, with white space anywhere around the
/// two names, and with nothing behind it or a comment.
pub open spec fn opens_binding(line: Seq<char>) -> bool {
    let cut = split::pieces(line, ']');
    let head = text::trim_start(cut[0]);
    &&& opens_table(line)
    &&& cut.len() >= 3
    &&& head.len() >= 2 && head[0] == '[' && head[1] == '['
    &&& is_binding_key(head.skip(2))
    &&& cut[1].len() == 0
    &&& is_comment(cut[2]) || (cut.len() == 3 && text::is_blank(cut[2]))
}

/// A line that holds nothing but a comment.
pub open spec fn is_comment(line: Seq<char>) -> bool {
    text::starts_with_char(text::trim_start(line), '#')
}

/// A line that names an action of this plugin, and is no comment.
pub open spec fn names_plugin(line: Seq<char>) -> bool {
    !is_comment(line) && (text::occurs_in(line, "\"herdr-ssh-manager."@) || text::occurs_in(
        line,
        "'herdr-ssh-manager."@,
    ))
}

/// The first position from `i` on whose line opens a table, or the number of lines.
pub open spec fn table_end(lines: Seq<Seq<char>>, i: int) -> int
    decreases lines.len() - i,
{
    if 0 <= i < lines.len() {
        if opens_table(lines[i]) {
            i
        } else {
            table_end(lines, i + 1)
        }
    } else {
        lines.len() as int
    }
}

/// A line that says nothing to TOML: blank, or a comment.
pub open spec fn is_loose(line: Seq<char>) -> bool {
    text::is_blank(line) || is_comment(line)
}

/// From line `i` up to the next table there are only comments and blank lines.
pub open spec fn only_loose(lines: Seq<Seq<char>>, i: int) -> bool {
    forall|j: int| i <= j < table_end(lines, i) ==> is_loose(#[trigger] lines[j])
}

/// A block ends in front of line `i`: it opens a table, or it is a blank line behind which
/// only comments and blank lines follow up to the next table. Those belong to the file, or
/// to what comes next, not to the block.
pub open spec fn closes_block(lines: Seq<Seq<char>>, i: int) -> bool {
    opens_table(lines[i]) || (text::is_blank(lines[i]) && only_loose(lines, i))
}

/// The first position from `i` on that closes a block, or the number of lines.
pub open spec fn block_stop(lines: Seq<Seq<char>>, i: int) -> int
    decreases lines.len() - i,
{
    if 0 <= i < lines.len() {
        if closes_block(lines, i) {
            i
        } else {
            block_stop(lines, i + 1)
        }
    } else {
        lines.len() as int
    }
}

/// Where the block that the first line opens ends.
pub open spec fn block_end(lines: Seq<Seq<char>>) -> int {
    block_stop(lines, 1)
}

/// Does one of the lines name an action of this plugin?
pub open spec fn is_ours(lines: Seq<Seq<char>>) -> bool {
    exists|i: int| 0 <= i < lines.len() && names_plugin(#[trigger] lines[i])
}

/// `kept` without the comments it ends with.
pub open spec fn drop_comments(kept: Seq<Seq<char>>) -> Seq<Seq<char>>
    decreases kept.len(),
{
    if kept.len() > 0 && is_comment(kept.last()) {
        drop_comments(kept.drop_last())
    } else {
        kept
    }
}

/// `kept` without the blank lines it ends with.
pub open spec fn drop_blanks(kept: Seq<Seq<char>>) -> Seq<Seq<char>>
    decreases kept.len(),
{
    if kept.len() > 0 && text::is_blank(kept.last()) {
        drop_blanks(kept.drop_last())
    } else {
        kept
    }
}

/// What is left of `lines`, put behind `settled` and `recent`, once the blocks bound to this
/// plugin are gone, and how many those were. `recent` are the lines that stand right above
/// `lines` in the config, back to the block that was taken out last.
///
/// With such a block go the comments right above it, which describe it, and the blank
/// lines above those.
pub open spec fn swept(
    lines: Seq<Seq<char>>,
    settled: Seq<Seq<char>>,
    recent: Seq<Seq<char>>,
) -> (Seq<Seq<char>>, nat)
    decreases lines.len(),
{
    if lines.len() == 0 {
        (settled + recent, 0)
    } else if !opens_binding(lines[0]) {
        swept(lines.skip(1), settled, recent.push(lines[0]))
    } else {
        proof {
            lemma_block_end(lines);
        }
        let end = block_end(lines);
        if is_ours(lines.take(end)) {
            let (out, n) = swept(
                lines.skip(end),
                drop_blanks(settled + drop_comments(recent)),
                seq![],
            );
            (out, n + 1)
        } else {
            swept(lines.skip(end), settled, recent + lines.take(end))
        }
    }
}

/// The lines as one text, with a line feed between neighbours and, when `closed`, one
/// behind the last.
pub open spec fn unlines(lines: Seq<Seq<char>>, closed: bool) -> Seq<char> {
    split::join(lines, "\n"@) + (if closed && lines.len() > 0 {
        "\n"@
    } else {
        seq![]
    })
}

/// Does the text end with a line feed?
pub open spec fn is_closed(s: Seq<char>) -> bool {
    s.len() > 0 && s.last() == '\n'
}

/// `config` without the blocks bound to this plugin, and how many those were.
pub open spec fn without_ours(config: Seq<char>) -> (Seq<char>, nat) {
    let (kept, n) = swept(split::raw_lines(config), seq![], seq![]);
    (unlines(kept, is_closed(config)), n)
}

// ---------------------------------------------------------------- bounds

proof fn lemma_table_end(lines: Seq<Seq<char>>, i: int)
    requires
        0 <= i <= lines.len(),
    ensures
        i <= table_end(lines, i) <= lines.len(),
        forall|j: int| i <= j < table_end(lines, i) ==> !opens_table(#[trigger] lines[j]),
        table_end(lines, i) < lines.len() ==> opens_table(lines[table_end(lines, i)]),
    decreases lines.len() - i,
{
    if i < lines.len() && !opens_table(lines[i]) {
        lemma_table_end(lines, i + 1);
    }
}

proof fn lemma_block_stop(lines: Seq<Seq<char>>, i: int)
    requires
        0 <= i <= lines.len(),
    ensures
        i <= block_stop(lines, i) <= table_end(lines, i) <= lines.len(),
        forall|j: int| i <= j < block_stop(lines, i) ==> !#[trigger] closes_block(lines, j),
        block_stop(lines, i) < lines.len() ==> closes_block(lines, block_stop(lines, i)),
    decreases lines.len() - i,
{
    lemma_table_end(lines, i);
    if i < lines.len() && !closes_block(lines, i) {
        lemma_block_stop(lines, i + 1);
    }
}

/// The first position that closes a block, found otherwise.
proof fn lemma_stop_is(lines: Seq<Seq<char>>, i: int, e: int)
    requires
        0 <= i <= e <= lines.len(),
        forall|k: int| i <= k < e ==> !#[trigger] closes_block(lines, k),
        e < lines.len() ==> closes_block(lines, e),
    ensures
        block_stop(lines, i) == e,
    decreases e - i,
{
    if i < e {
        assert(!closes_block(lines, i));
        lemma_stop_is(lines, i + 1, e);
    }
}

/// A block ends at the next table or before, behind the line that opens it, and only
/// comments and blank lines lie between.
pub proof fn lemma_block_end(lines: Seq<Seq<char>>)
    requires
        lines.len() > 0,
    ensures
        1 <= block_end(lines) <= table_end(lines, 1) <= lines.len(),
        forall|j: int| 1 <= j < table_end(lines, 1) ==> !opens_table(#[trigger] lines[j]),
        block_stop(lines.skip(block_end(lines)), 0) == 0,
        only_loose(lines.skip(block_end(lines)), 0),
{
    lemma_table_end(lines, 1);
    lemma_block_stop(lines, 1);
    let end = block_end(lines);
    let rest = lines.skip(end);
    lemma_stop_shift(lines, end, end);
    lemma_end_shift(lines, end, end);
    if end < lines.len() {
        assert(closes_block(lines, end));
        lemma_loose_shift(lines, end, end);
        if opens_table(lines[end]) {
            assert(table_end(lines, end) == end);
        }
    }
}

proof fn lemma_end_shift(lines: Seq<Seq<char>>, i: int, j: int)
    requires
        0 <= i <= j <= lines.len(),
    ensures
        table_end(lines, j) == table_end(lines.skip(i), j - i) + i,
    decreases lines.len() - j,
{
    if j < lines.len() {
        assert(lines.skip(i)[j - i] == lines[j]);
        if !opens_table(lines[j]) {
            lemma_end_shift(lines, i, j + 1);
        }
    }
}

proof fn lemma_loose_shift(lines: Seq<Seq<char>>, i: int, j: int)
    requires
        0 <= i <= j <= lines.len(),
    ensures
        only_loose(lines, j) == only_loose(lines.skip(i), j - i),
{
    let rest = lines.skip(i);
    lemma_end_shift(lines, i, j);
    lemma_table_end(lines, j);
    if only_loose(lines, j) {
        assert forall|k: int| j - i <= k < table_end(rest, j - i) implies is_loose(
            #[trigger] rest[k],
        ) by {
            assert(rest[k] == lines[k + i]);
        }
    }
    if only_loose(rest, j - i) {
        assert forall|k: int| j <= k < table_end(lines, j) implies is_loose(#[trigger] lines[k]) by {
            assert(rest[k - i] == lines[k]);
        }
    }
}

proof fn lemma_stop_shift(lines: Seq<Seq<char>>, i: int, j: int)
    requires
        0 <= i <= j <= lines.len(),
    ensures
        block_stop(lines, j) == block_stop(lines.skip(i), j - i) + i,
    decreases lines.len() - j,
{
    if j < lines.len() {
        assert(lines.skip(i)[j - i] == lines[j]);
        lemma_loose_shift(lines, i, j);
        if !closes_block(lines, j) {
            lemma_stop_shift(lines, i, j + 1);
        }
    }
}

// ---------------------------------------------------------------- the removal itself

fn part_says(part: &str, name: &str) -> (r: bool)
    ensures
        r == says(part@, name@),
{
    let t = text::trim(part);
    text::same(t.as_str(), name) || text::same(
        t.as_str(),
        text::concat3("\"", name, "\"").as_str(),
    ) || text::same(t.as_str(), text::concat3("'", name, "'").as_str())
}

fn line_opens_binding(line: &str) -> (r: bool)
    ensures
        r == opens_binding(line@),
{
    let cut = split::split_pieces(line, ']');
    let ghost pieces = text::texts(cut@);
    if !line_opens_table(line) || cut.len() < 3 || !cut[1].as_str().is_empty() {
        assert(cut@.len() >= 3 ==> pieces[1] == cut@[1]@);
        return false;
    }
    proof {
        assert(pieces[0] == cut@[0]@ && pieces[1] == cut@[1]@ && pieces[2] == cut@[2]@);
    }
    let ended = line_is_comment(cut[2].as_str()) || (cut.len() == 3 && text::blank(
        cut[2].as_str(),
    ));
    let head = text::to_chars(text::trim_left(cut[0].as_str()).as_str());
    let n: usize = head.len();
    if !ended || n < 2 || head[0] != '[' || head[1] != '[' {
        return false;
    }
    let key = text::from_range(&head, 2, n);
    assert(key@ =~= head@.skip(2));
    let parts = split::split_pieces(key.as_str(), '.');
    let ghost names = text::texts(parts@);
    if parts.len() != 2 {
        return false;
    }
    assert(names[0] == parts@[0]@ && names[1] == parts@[1]@);
    part_says(parts[0].as_str(), "keys") && part_says(parts[1].as_str(), "command")
}

/// The plain form of the header opens a binding.
pub proof fn lemma_plain_header()
    ensures
        opens_binding("[[keys.command]]"@),
{
    reveal_strlit("[[keys.command]]");
    reveal_strlit("keys");
    reveal_strlit("command");
    let line = "[[keys.command]]"@;
    let none = Seq::<char>::empty();
    let front = seq!['[', '['] + "keys"@ + seq!['.'] + "command"@;
    assert(line =~= front.push(']') + none.push(']'));
    assert(none.push(']') =~= none.push(']') + none);
    split::lemma_pieces_concat(front, none.push(']'), ']');
    split::lemma_pieces_concat(none, none, ']');
    split::lemma_pieces_single(none, ']');
    split::lemma_pieces_single(front, ']');
    assert(split::pieces(line, ']') =~= seq![front, none, none]);
    let key = front.skip(2);
    assert(text::trim_start(front) == front);
    assert(key =~= "keys"@.push('.') + "command"@);
    split::lemma_pieces_concat("keys"@, "command"@, '.');
    split::lemma_pieces_single("keys"@, '.');
    split::lemma_pieces_single("command"@, '.');
    assert(split::pieces(key, '.') =~= seq!["keys"@, "command"@]);
    assert(text::trimmed("keys"@) == "keys"@);
    assert(text::trimmed("command"@) == "command"@);
    assert(text::trim_start(line) == line);
}

fn line_opens_table(line: &str) -> (r: bool)
    ensures
        r == opens_table(line@),
{
    text::begins_with_char(text::trim_left(line).as_str(), '[')
}

fn line_is_comment(line: &str) -> (r: bool)
    ensures
        r == is_comment(line@),
{
    text::begins_with_char(text::trim_left(line).as_str(), '#')
}

fn line_names_plugin(line: &str) -> (r: bool)
    ensures
        r == names_plugin(line@),
{
    !line_is_comment(line) && (text::contains_text(line, "\"herdr-ssh-manager.")
        || text::contains_text(line, "'herdr-ssh-manager."))
}

fn line_is_loose(line: &str) -> (r: bool)
    ensures
        r == is_loose(line@),
{
    text::blank(line) || line_is_comment(line)
}

/// Where the block that line `start` opens ends.
fn find_block_end(lines: &Vec<String>, start: usize) -> (r: usize)
    requires
        start < lines@.len(),
    ensures
        r == start + block_end(text::texts(lines@).skip(start as int)),
        start < r <= lines@.len(),
{
    let ghost all = text::texts(lines@);
    let n: usize = lines.len();
    let mut full: usize = start + 1;
    proof {
        lemma_table_end(all, start + 1);
        lemma_stop_shift(all, start as int, start + 1);
        lemma_block_stop(all, start + 1);
    }
    while full < n && !line_opens_table(lines[full].as_str())
        invariant
            all == text::texts(lines@),
            n == lines@.len(),
            start + 1 <= full <= n,
            table_end(all, start + 1) == table_end(all, full as int),
        decreases lines@.len() - full,
    {
        assert(all[full as int] == lines@[full as int]@);
        full = full + 1;
    }
    proof {
        if full < lines@.len() {
            assert(all[full as int] == lines@[full as int]@);
        }
        assert(full == table_end(all, start + 1));
    }
    let mut end: usize = full;
    while end > start + 1 && line_is_loose(lines[end - 1].as_str())
        invariant
            all == text::texts(lines@),
            start + 1 <= end <= full <= lines@.len(),
            forall|j: int| end <= j < full ==> is_loose(#[trigger] all[j]),
        decreases end,
    {
        assert(all[end - 1] == lines@[end - 1]@);
        end = end - 1;
    }
    proof {
        if end > start + 1 {
            assert(all[end - 1] == lines@[end - 1]@);
        }
        assert forall|k: int| start + 1 <= k < end implies !#[trigger] closes_block(all, k) by {
            lemma_end_from(all, start + 1, k);
            assert(!is_loose(all[end - 1]));
        }
    }
    while end < full && !text::blank(lines[end].as_str())
        invariant
            all == text::texts(lines@),
            start + 1 <= end <= full <= lines@.len(),
            full == table_end(all, start + 1),
            forall|j: int| start + 1 <= j < full ==> !opens_table(#[trigger] all[j]),
            forall|j: int| end <= j < full ==> is_loose(#[trigger] all[j]),
            forall|k: int| start + 1 <= k < end ==> !#[trigger] closes_block(all, k),
        decreases full - end,
    {
        assert(all[end as int] == lines@[end as int]@);
        assert(!closes_block(all, end as int));
        end = end + 1;
    }
    proof {
        lemma_end_from(all, start + 1, end as int);
        if end < full {
            assert(all[end as int] == lines@[end as int]@);
        }
        lemma_stop_is(all, start + 1, end as int);
    }
    end
}

/// Does a line of `from..to` name an action of this plugin?
fn block_is_ours(lines: &Vec<String>, from: usize, to: usize) -> (r: bool)
    requires
        from <= to <= lines@.len(),
    ensures
        r == is_ours(text::texts(lines@).skip(from as int).take(to - from)),
{
    let ghost block = text::texts(lines@).skip(from as int).take(to - from);
    let mut i: usize = from;
    while i < to
        invariant
            from <= i <= to <= lines@.len(),
            block == text::texts(lines@).skip(from as int).take(to - from),
            forall|j: int| 0 <= j < i - from ==> !names_plugin(#[trigger] block[j]),
        decreases to - i,
    {
        assert(block[i - from] == lines@[i as int]@);
        if line_names_plugin(lines[i].as_str()) {
            return true;
        }
        i = i + 1;
    }
    false
}

proof fn lemma_texts_drop_last(v: Seq<String>)
    requires
        v.len() > 0,
    ensures
        text::texts(v.drop_last()) == text::texts(v).drop_last(),
        text::texts(v).last() == v.last()@,
{
    assert(text::texts(v.drop_last()) =~= text::texts(v).drop_last());
}

/// Drops the comments that `kept` ends with, back to line `settled`, then the blank lines.
fn trim_kept(kept: &mut Vec<String>, settled: usize)
    requires
        settled <= old(kept)@.len(),
    ensures
        text::texts(final(kept)@) == drop_blanks(
            text::texts(old(kept)@).take(settled as int) + drop_comments(
                text::texts(old(kept)@).skip(settled as int),
            ),
        ),
{
    let ghost front = text::texts(kept@).take(settled as int);
    let ghost goal = drop_comments(text::texts(kept@).skip(settled as int));
    while kept.len() > settled && line_is_comment(kept[kept.len() - 1].as_str())
        invariant
            settled <= kept@.len(),
            text::texts(kept@).take(settled as int) == front,
            drop_comments(text::texts(kept@).skip(settled as int)) == goal,
        decreases kept@.len(),
    {
        proof {
            lemma_texts_drop_last(kept@);
            let t = text::texts(kept@);
            assert(t.skip(settled as int).drop_last() =~= t.drop_last().skip(settled as int));
            assert(t.skip(settled as int).last() == t.last());
            assert(t.drop_last().take(settled as int) =~= t.take(settled as int));
        }
        kept.pop();
    }
    proof {
        let t = text::texts(kept@);
        if kept@.len() > settled {
            lemma_texts_drop_last(kept@);
            assert(t.skip(settled as int).last() == t.last());
        }
        assert(t.skip(settled as int) == goal);
        assert(t =~= front + goal);
    }
    while kept.len() > 0 && text::blank(kept[kept.len() - 1].as_str())
        invariant
            drop_blanks(text::texts(kept@)) == drop_blanks(front + goal),
        decreases kept@.len(),
    {
        proof {
            lemma_texts_drop_last(kept@);
        }
        kept.pop();
    }
    proof {
        if kept@.len() > 0 {
            lemma_texts_drop_last(kept@);
        }
    }
}

/// Drop every `[[keys.command]]` block bound to this plugin, with the comments glued to it and
/// the blank lines above, leaving the rest byte for byte.
pub fn without_our_bindings(config: &str) -> (r: (String, usize))
    ensures
        r.0@ == without_ours(config@).0,
        r.1 == without_ours(config@).1,
{
    let closed = text::ends_with_char(config, '\n');
    let lines = split::split_raw_lines(config);
    let ghost all = text::texts(lines@);
    let mut kept: Vec<String> = Vec::new();
    // What is kept up to here stood above a block that is gone; the rest stands right above
    // the line at hand.
    let mut settled: usize = 0;
    let mut removed: usize = 0;
    let mut i: usize = 0;
    let ghost goal = swept(all, seq![], seq![]);
    proof {
        assert(all.skip(0) =~= all);
        assert(text::texts(kept@).take(0) =~= seq![]);
        assert(text::texts(kept@).skip(0) =~= seq![]);
    }
    while i < lines.len()
        invariant
            all == text::texts(lines@),
            i <= lines@.len(),
            removed <= i,
            settled <= kept@.len(),
            ({
                let t = text::texts(kept@);
                let now = swept(
                    all.skip(i as int),
                    t.take(settled as int),
                    t.skip(settled as int),
                );
                now.0 == goal.0 && now.1 + removed == goal.1
            }),
        decreases lines@.len() - i,
    {
        let ghost rest = all.skip(i as int);
        let ghost before = text::texts(kept@);
        assert(rest[0] == lines@[i as int]@);
        if !line_opens_binding(lines[i].as_str()) {
            kept.push(lines[i].clone());
            proof {
                let t = text::texts(kept@);
                assert(rest.skip(1) =~= all.skip(i + 1));
                assert(t.take(settled as int) =~= before.take(settled as int));
                assert(t.skip(settled as int) =~= before.skip(settled as int).push(rest[0]));
            }
            i = i + 1;
        } else {
            let end = find_block_end(&lines, i);
            assert(rest.skip(end - i) =~= all.skip(end as int));
            if block_is_ours(&lines, i, end) {
                removed = removed + 1;
                trim_kept(&mut kept, settled);
                settled = kept.len();
                proof {
                    let t = text::texts(kept@);
                    assert(t.take(settled as int) =~= t);
                    assert(t.skip(settled as int) =~= seq![]);
                }
            } else {
                let mut j: usize = i;
                assert(before + rest.take(0) =~= before);
                while j < end
                    invariant
                        all == text::texts(lines@),
                        rest == all.skip(i as int),
                        i <= j <= end <= lines@.len(),
                        text::texts(kept@) == before + rest.take(j - i),
                    decreases end - j,
                {
                    proof {
                        assert(rest[j - i] == lines@[j as int]@);
                        assert(before + rest.take(j + 1 - i) =~= (before + rest.take(j - i)).push(
                            rest[j - i],
                        ));
                    }
                    kept.push(lines[j].clone());
                    j = j + 1;
                }
                proof {
                    let t = text::texts(kept@);
                    assert(before.len() <= t.len());
                    assert(t.take(settled as int) =~= before.take(settled as int));
                    assert(t.skip(settled as int) =~= before.skip(settled as int) + rest.take(
                        end - i,
                    ));
                }
            }
            i = end;
        }
    }
    proof {
        let t = text::texts(kept@);
        assert(all.skip(i as int) =~= seq![]);
        assert(t.take(settled as int) + t.skip(settled as int) =~= t);
    }
    let mut out = split::join_texts(&kept, "\n");
    if closed && kept.len() > 0 {
        out.append("\n");
    }
    assert(out@ =~= unlines(text::texts(kept@), closed));
    (out, removed)
}

// ---------------------------------------------------------------- laws

/// None of the blocks that bind a key names an action of this plugin.
pub open spec fn is_clean(lines: Seq<Seq<char>>) -> bool {
    forall|i: int, j: int|
        0 <= i <= j < block_stop(lines, i + 1) && #[trigger] opens_binding(lines[i])
            ==> !#[trigger] names_plugin(lines[j])
}

proof fn lemma_end_append(a: Seq<Seq<char>>, b: Seq<Seq<char>>, i: int)
    requires
        0 <= i <= a.len(),
    ensures
        table_end(a + b, i) == (if table_end(a, i) < a.len() {
            table_end(a, i)
        } else {
            a.len() + table_end(b, 0)
        }),
    decreases a.len() - i,
{
    if i < a.len() {
        assert((a + b)[i] == a[i]);
        if !opens_table(a[i]) {
            lemma_end_append(a, b, i + 1);
        }
    } else {
        lemma_end_shift(a + b, a.len() as int, a.len() as int);
        assert((a + b).skip(a.len() as int) =~= b);
    }
}

proof fn lemma_stop_take(a: Seq<Seq<char>>, n: int, i: int)
    requires
        0 <= i <= n <= a.len(),
    ensures
        block_stop(a.take(n), i) <= block_stop(a, i),
    decreases n - i,
{
    let part = a.take(n);
    lemma_block_stop(a, i);
    if i < n {
        assert(part[i] == a[i]);
        if closes_block(a, i) {
            lemma_end_append(part, a.skip(n), i);
            assert(part + a.skip(n) =~= a);
            lemma_table_end(part, i);
            lemma_table_end(a.skip(n), 0);
            assert forall|j: int| i <= j < table_end(part, i) implies is_loose(
                #[trigger] part[j],
            ) || opens_table(a[i]) by {
                assert(part[j] == a[j]);
            }
            assert(closes_block(part, i));
        } else if !closes_block(part, i) {
            lemma_stop_take(a, n, i + 1);
        } else {
            lemma_block_stop(a, i + 1);
        }
    }
}

/// With a table behind the lines, their blocks end where they did.
proof fn lemma_stop_before_table(a: Seq<Seq<char>>, b: Seq<Seq<char>>, i: int)
    requires
        0 <= i <= a.len(),
        b.len() > 0,
        opens_table(b[0]),
    ensures
        block_stop(a + b, i) == block_stop(a, i),
    decreases a.len() - i,
{
    let all = a + b;
    if i < a.len() {
        assert(all[i] == a[i]);
        lemma_end_append(a, b, i);
        lemma_table_end(a, i);
        assert(table_end(b, 0) == 0);
        assert(table_end(all, i) == table_end(a, i));
        assert(forall|j: int| i <= j < table_end(a, i) ==> #[trigger] all[j] == a[j]);
        assert(only_loose(all, i) == only_loose(a, i)) by {
            if only_loose(all, i) {
                assert forall|j: int| i <= j < table_end(a, i) implies is_loose(
                    #[trigger] a[j],
                ) by {
                    assert(is_loose(all[j]));
                }
            }
        }
        lemma_stop_before_table(a, b, i + 1);
    } else {
        assert(all[i] == b[0]);
    }
}

/// With a comment or a blank line behind the lines, a block that was closed ends where it
/// did, and one that was not ends in front of the line where that is blank.
proof fn lemma_stop_before_loose(a: Seq<Seq<char>>, line: Seq<char>, i: int)
    requires
        0 <= i <= a.len(),
        is_loose(line),
        text::is_blank(line) || block_stop(a, i) < a.len(),
    ensures
        block_stop(a.push(line), i) == block_stop(a, i),
    decreases a.len() - i,
{
    let all = a.push(line);
    let one = seq![line];
    assert(all =~= a + one);
    lemma_table_end(all, i);
    if i < a.len() {
        assert(all[i] == a[i]);
        lemma_end_append(a, one, i);
        lemma_table_end(a, i);
        lemma_table_end(one, 0);
        if only_loose(a, i) {
            assert forall|j: int| i <= j < table_end(all, i) implies is_loose(
                #[trigger] all[j],
            ) by {
                if j < a.len() {
                    assert(all[j] == a[j]);
                }
            }
        }
        if only_loose(all, i) {
            assert forall|j: int| i <= j < table_end(a, i) implies is_loose(#[trigger] a[j]) by {
                assert(all[j] == a[j]);
            }
        }
        if !closes_block(a, i) {
            lemma_stop_before_loose(a, line, i + 1);
        }
    } else {
        assert(all[i] == line);
        assert(only_loose(all, i));
    }
}

proof fn lemma_end_from(a: Seq<Seq<char>>, i: int, j: int)
    requires
        0 <= i <= j <= table_end(a, i),
        i <= a.len(),
    ensures
        table_end(a, j) == table_end(a, i),
    decreases j - i,
{
    lemma_table_end(a, i);
    if i < j {
        assert(!opens_table(a[i]));
        lemma_end_from(a, i + 1, j);
    }
}

proof fn lemma_clean_skip(lines: Seq<Seq<char>>, n: int)
    requires
        0 <= n <= lines.len(),
        is_clean(lines),
    ensures
        is_clean(lines.skip(n)),
{
    let rest = lines.skip(n);
    assert forall|i: int, j: int|
        0 <= i <= j < block_stop(rest, i + 1) && #[trigger] opens_binding(rest[i]) implies
        !#[trigger] names_plugin(rest[j]) by {
        if i < rest.len() {
            lemma_stop_shift(lines, n, i + n + 1);
            lemma_block_stop(rest, i + 1);
            assert(rest[i] == lines[i + n]);
            assert(rest[j] == lines[j + n]);
        } else {
            lemma_beyond(rest, i);
        }
    }
}

/// Behind the last line there is nothing to look at.
proof fn lemma_beyond(lines: Seq<Seq<char>>, i: int)
    requires
        lines.len() <= i,
    ensures
        block_stop(lines, i + 1) <= i,
{
}

proof fn lemma_clean_take(lines: Seq<Seq<char>>, n: int)
    requires
        0 <= n <= lines.len(),
        is_clean(lines),
    ensures
        is_clean(lines.take(n)),
{
    let part = lines.take(n);
    assert forall|i: int, j: int|
        0 <= i <= j < block_stop(part, i + 1) && #[trigger] opens_binding(part[i]) implies
        !#[trigger] names_plugin(part[j]) by {
        if i < part.len() {
            lemma_stop_take(lines, n, i + 1);
            lemma_block_stop(part, i + 1);
            assert(part[i] == lines[i]);
            assert(part[j] == lines[j]);
        } else {
            lemma_beyond(part, i);
        }
    }
}

proof fn lemma_first_block_not_ours(lines: Seq<Seq<char>>)
    requires
        lines.len() > 0,
        opens_binding(lines[0]),
        is_clean(lines),
    ensures
        !is_ours(lines.take(block_end(lines))),
{
    lemma_block_end(lines);
    let block = lines.take(block_end(lines));
    assert forall|i: int| 0 <= i < block.len() implies !names_plugin(#[trigger] block[i]) by {
        assert(block[i] == lines[i]);
        assert(opens_binding(lines[0]));
    }
}

/// Lines without a block of ours go through unchanged.
proof fn lemma_clean_is_kept(
    lines: Seq<Seq<char>>,
    settled: Seq<Seq<char>>,
    recent: Seq<Seq<char>>,
)
    requires
        is_clean(lines),
    ensures
        swept(lines, settled, recent) == (settled + recent + lines, 0nat),
    decreases lines.len(),
{
    if lines.len() == 0 {
        assert(settled + recent + lines =~= settled + recent);
    } else if !opens_binding(lines[0]) {
        lemma_clean_skip(lines, 1);
        lemma_clean_is_kept(lines.skip(1), settled, recent.push(lines[0]));
        assert(settled + recent.push(lines[0]) + lines.skip(1) =~= settled + recent + lines);
    } else {
        lemma_block_end(lines);
        let end = block_end(lines);
        lemma_first_block_not_ours(lines);
        lemma_clean_skip(lines, end);
        lemma_clean_is_kept(lines.skip(end), settled, recent + lines.take(end));
        assert(settled + (recent + lines.take(end)) + lines.skip(end) =~= settled + recent + lines);
    }
}

/// Where nothing was removed, everything was kept.
proof fn lemma_nothing_removed(
    lines: Seq<Seq<char>>,
    settled: Seq<Seq<char>>,
    recent: Seq<Seq<char>>,
)
    requires
        swept(lines, settled, recent).1 == 0,
    ensures
        swept(lines, settled, recent).0 == settled + recent + lines,
    decreases lines.len(),
{
    if lines.len() == 0 {
        assert(settled + recent + lines =~= settled + recent);
    } else if !opens_binding(lines[0]) {
        lemma_nothing_removed(lines.skip(1), settled, recent.push(lines[0]));
        assert(settled + recent.push(lines[0]) + lines.skip(1) =~= settled + recent + lines);
    } else {
        lemma_block_end(lines);
        let end = block_end(lines);
        lemma_nothing_removed(lines.skip(end), settled, recent + lines.take(end));
        assert(settled + (recent + lines.take(end)) + lines.skip(end) =~= settled + recent + lines);
    }
}

/// No table follows line `i`, which opens a binding.
spec fn is_open(kept: Seq<Seq<char>>, i: int) -> bool {
    0 <= i < kept.len() && opens_binding(kept[i]) && table_end(kept, i + 1) == kept.len()
}

/// What follows `kept` adds nothing to its last block.
spec fn fits_behind(rest: Seq<Seq<char>>, kept: Seq<Seq<char>>) -> bool {
    forall|i: int| #[trigger]
        is_open(kept, i) ==> only_loose(rest, 0) && (block_stop(kept, i + 1) < kept.len()
            || block_stop(rest, 0) == 0)
}

proof fn lemma_push_clean(kept: Seq<Seq<char>>, rest: Seq<Seq<char>>)
    requires
        is_clean(kept),
        fits_behind(rest, kept),
        rest.len() > 0,
        !opens_binding(rest[0]),
    ensures
        is_clean(kept.push(rest[0])),
        fits_behind(rest.skip(1), kept.push(rest[0])),
{
    let line = rest[0];
    let one = seq![line];
    let more = kept.push(line);
    let after = rest.skip(1);
    assert(more =~= kept + one);
    lemma_table_end(one, 0);
    assert forall|i: int, j: int|
        0 <= i <= j < block_stop(more, i + 1) && #[trigger] opens_binding(more[i]) implies
        !#[trigger] names_plugin(more[j]) by {
        if i < kept.len() {
            assert(more[i] == kept[i]);
            lemma_push_stop(kept, rest, i);
            lemma_block_stop(kept, i + 1);
            assert(more[j] == kept[j]);
        } else if i >= more.len() {
            lemma_beyond(more, i);
        }
    }
    assert forall|i: int| #[trigger] is_open(more, i) implies only_loose(after, 0) && block_stop(
        more,
        i + 1,
    ) < more.len() by {
        assert(i < kept.len());
        assert(more[i] == kept[i]);
        lemma_end_append(kept, one, i + 1);
        lemma_table_end(kept, i + 1);
        assert(is_open(kept, i));
        assert(!opens_table(line));
        lemma_push_stop(kept, rest, i);
        lemma_block_stop(kept, i + 1);
        lemma_table_end(rest, 0);
        lemma_end_from(rest, 0, 1);
        lemma_loose_shift(rest, 1, 1);
    }
}

proof fn lemma_push_stop(kept: Seq<Seq<char>>, rest: Seq<Seq<char>>, i: int)
    requires
        0 <= i < kept.len(),
        opens_binding(kept[i]),
        fits_behind(rest, kept),
        rest.len() > 0,
    ensures
        block_stop(kept.push(rest[0]), i + 1) == block_stop(kept, i + 1),
{
    let line = rest[0];
    let one = seq![line];
    assert(kept.push(line) =~= kept + one);
    lemma_table_end(kept, i + 1);
    lemma_block_stop(kept, i + 1);
    if opens_table(line) {
        lemma_stop_before_table(kept, one, i + 1);
    } else if is_open(kept, i) {
        lemma_table_end(rest, 0);
        lemma_table_end(rest, 1);
        assert(is_loose(rest[0]));
        lemma_block_stop(rest, 0);
        lemma_stop_before_loose(kept, line, i + 1);
    } else {
        lemma_stop_before_end(kept, one, i + 1);
    }
}

/// A table inside the lines closes a block before what stands behind them.
proof fn lemma_stop_before_end(a: Seq<Seq<char>>, b: Seq<Seq<char>>, i: int)
    requires
        0 <= i <= a.len(),
        table_end(a, i) < a.len(),
    ensures
        block_stop(a + b, i) == block_stop(a, i),
    decreases a.len() - i,
{
    let all = a + b;
    lemma_end_append(a, b, i);
    lemma_table_end(a, i);
    if i < a.len() {
        assert(all[i] == a[i]);
        assert(only_loose(all, i) == only_loose(a, i)) by {
            if only_loose(all, i) {
                assert forall|j: int| i <= j < table_end(a, i) implies is_loose(
                    #[trigger] a[j],
                ) by {
                    assert(all[j] == a[j]);
                }
            }
            if only_loose(a, i) {
                assert forall|j: int| i <= j < table_end(all, i) implies is_loose(
                    #[trigger] all[j],
                ) by {
                    assert(all[j] == a[j]);
                }
            }
        }
        if !closes_block(a, i) {
            lemma_stop_before_end(a, b, i + 1);
        }
    }
}

proof fn lemma_none_clean()
    ensures
        is_clean(Seq::<Seq<char>>::empty()),
{
    let none = Seq::<Seq<char>>::empty();
    assert forall|i: int, j: int|
        0 <= i <= j < block_stop(none, i + 1) && #[trigger] opens_binding(none[i]) implies
        !#[trigger] names_plugin(none[j]) by {
        lemma_beyond(none, i);
    }
}

/// Of what is kept, a removal drops lines at the end only.
proof fn lemma_drop_is_take(settled: Seq<Seq<char>>, recent: Seq<Seq<char>>) -> (n: int)
    ensures
        0 <= n <= settled.len() + recent.len(),
        drop_blanks(settled + drop_comments(recent)) == (settled + recent).take(n),
{
    let m = lemma_comments_take(recent);
    let n = lemma_blanks_take(settled + recent.take(m));
    assert((settled + recent.take(m)).take(n) =~= (settled + recent).take(n));
    n
}

proof fn lemma_comments_take(recent: Seq<Seq<char>>) -> (m: int)
    ensures
        0 <= m <= recent.len(),
        drop_comments(recent) == recent.take(m),
        forall|k: int| m <= k < recent.len() ==> is_comment(#[trigger] recent[k]),
        m > 0 ==> !is_comment(recent[m - 1]),
    decreases recent.len(),
{
    if recent.len() > 0 && is_comment(recent.last()) {
        let front = recent.drop_last();
        let m = lemma_comments_take(front);
        assert(front.take(m) =~= recent.take(m));
        assert forall|k: int| m <= k < recent.len() implies is_comment(#[trigger] recent[k]) by {
            if k < front.len() {
                assert(front[k] == recent[k]);
            }
        }
        if m > 0 {
            assert(front[m - 1] == recent[m - 1]);
        }
        m
    } else {
        assert(recent.take(recent.len() as int) =~= recent);
        recent.len() as int
    }
}

proof fn lemma_blanks_take(kept: Seq<Seq<char>>) -> (n: int)
    ensures
        0 <= n <= kept.len(),
        drop_blanks(kept) == kept.take(n),
    decreases kept.len(),
{
    if kept.len() > 0 && text::is_blank(kept.last()) {
        let n = lemma_blanks_take(kept.drop_last());
        assert(kept.drop_last().take(n) =~= kept.take(n));
        n
    } else {
        assert(kept.take(kept.len() as int) =~= kept);
        kept.len() as int
    }
}

proof fn lemma_swept_is_clean(
    rest: Seq<Seq<char>>,
    settled: Seq<Seq<char>>,
    recent: Seq<Seq<char>>,
)
    requires
        is_clean(settled + recent),
        fits_behind(rest, settled + recent),
    ensures
        is_clean(swept(rest, settled, recent).0),
    decreases rest.len(),
{
    let kept = settled + recent;
    if rest.len() > 0 {
        if !opens_binding(rest[0]) {
            lemma_push_clean(kept, rest);
            assert(settled + recent.push(rest[0]) =~= kept.push(rest[0]));
            lemma_swept_is_clean(rest.skip(1), settled, recent.push(rest[0]));
        } else {
            lemma_block_end(rest);
            let end = block_end(rest);
            let block = rest.take(end);
            let none = Seq::<Seq<char>>::empty();
            if is_ours(block) {
                let n = lemma_drop_is_take(settled, recent);
                lemma_clean_take(kept, n);
                assert(kept.take(n) + none =~= kept.take(n));
                lemma_swept_is_clean(rest.skip(end), kept.take(n), none);
            } else {
                let all = kept + block;
                assert(settled + (recent + block) =~= all);
                assert(block[0] == rest[0]);
                assert forall|i: int, j: int|
                    0 <= i <= j < block_stop(all, i + 1) && #[trigger] opens_binding(
                        all[i],
                    ) implies !#[trigger] names_plugin(all[j]) by {
                    if i < kept.len() {
                        assert(all[i] == kept[i]);
                        lemma_stop_before_table(kept, block, i + 1);
                        lemma_block_stop(kept, i + 1);
                        assert(all[j] == kept[j]);
                    } else if i < all.len() {
                        lemma_block_stop(all, i + 1);
                        assert(all[j] == block[j - kept.len()]);
                        assert(!names_plugin(block[j - kept.len()]));
                    } else {
                        lemma_beyond(all, i);
                    }
                }
                lemma_swept_is_clean(rest.skip(end), settled, recent + block);
            }
        }
    }
}

/// Every line that is left was there before, and in the same order.
pub open spec fn is_part_of(part: Seq<Seq<char>>, whole: Seq<Seq<char>>) -> bool
    decreases whole.len(),
{
    ||| part.len() == 0
    ||| whole.len() > 0 && part.last() == whole.last() && is_part_of(
        part.drop_last(),
        whole.drop_last(),
    )
    ||| whole.len() > 0 && is_part_of(part, whole.drop_last())
}

proof fn lemma_part_whole(s: Seq<Seq<char>>)
    ensures
        is_part_of(s, s),
    decreases s.len(),
{
    if s.len() > 0 {
        lemma_part_whole(s.drop_last());
    }
}

proof fn lemma_part_append(part: Seq<Seq<char>>, whole: Seq<Seq<char>>, more: Seq<Seq<char>>)
    requires
        is_part_of(part, whole),
    ensures
        is_part_of(part + more, whole + more),
        is_part_of(part, whole + more),
    decreases more.len(),
{
    if more.len() == 0 {
        assert(part + more =~= part);
        assert(whole + more =~= whole);
    } else {
        lemma_part_append(part, whole, more.drop_last());
        assert((part + more).drop_last() =~= part + more.drop_last());
        assert((whole + more).drop_last() =~= whole + more.drop_last());
    }
}

proof fn lemma_part_take(part: Seq<Seq<char>>, whole: Seq<Seq<char>>, n: int)
    requires
        is_part_of(part, whole),
        0 <= n <= part.len(),
    ensures
        is_part_of(part.take(n), whole),
    decreases whole.len(),
{
    if n == part.len() {
        assert(part.take(n) =~= part);
    } else if n > 0 {
        assert(part.take(n) =~= part.drop_last().take(n));
        if part.last() == whole.last() && is_part_of(part.drop_last(), whole.drop_last()) {
            lemma_part_take(part.drop_last(), whole.drop_last(), n);
        } else {
            lemma_part_take(part, whole.drop_last(), n);
        }
    }
}

proof fn lemma_swept_part(
    lines: Seq<Seq<char>>,
    settled: Seq<Seq<char>>,
    recent: Seq<Seq<char>>,
    whole: Seq<Seq<char>>,
)
    requires
        is_part_of(settled + recent, whole),
    ensures
        is_part_of(swept(lines, settled, recent).0, whole + lines),
    decreases lines.len(),
{
    let kept = settled + recent;
    if lines.len() == 0 {
        assert(whole + lines =~= whole);
    } else if !opens_binding(lines[0]) {
        let one = seq![lines[0]];
        lemma_part_append(kept, whole, one);
        assert(kept + one =~= settled + recent.push(lines[0]));
        lemma_swept_part(lines.skip(1), settled, recent.push(lines[0]), whole + one);
        assert(whole + one + lines.skip(1) =~= whole + lines);
    } else {
        lemma_block_end(lines);
        let end = block_end(lines);
        let block = lines.take(end);
        let none = Seq::<Seq<char>>::empty();
        assert(whole + block + lines.skip(end) =~= whole + lines);
        lemma_part_append(kept, whole, block);
        if is_ours(block) {
            let n = lemma_drop_is_take(settled, recent);
            lemma_part_take(kept, whole + block, n);
            assert(kept.take(n) + none =~= kept.take(n));
            lemma_swept_part(lines.skip(end), kept.take(n), none, whole + block);
        } else {
            assert(kept + block =~= settled + (recent + block));
            lemma_swept_part(lines.skip(end), settled, recent + block, whole + block);
        }
    }
}

proof fn lemma_unlines_raw_lines(s: Seq<char>)
    ensures
        unlines(split::raw_lines(s), is_closed(s)) == s,
{
    reveal_strlit("\n");
    assert("\n"@ =~= seq!['\n']);
    let p = split::pieces(s, '\n');
    split::law_join_pieces(s, '\n');
    split::lemma_pieces_nonempty(s, '\n');
    if s.len() == 0 {
        assert(unlines(split::raw_lines(s), is_closed(s)) =~= s);
    } else {
        lemma_last_piece(s);
        if s.last() == '\n' {
            split::lemma_pieces_nonempty(s.drop_last(), '\n');
            let front = p.drop_last();
            assert(p.last() =~= seq![]);
            assert(split::join(p, "\n"@) =~= split::join(front, "\n"@) + "\n"@);
        } else {
            assert(unlines(p, false) =~= s);
        }
    }
}

/// The last piece is empty exactly when the text is, or ends with a line feed.
proof fn lemma_last_piece(s: Seq<char>)
    requires
        s.len() > 0,
    ensures
        split::pieces(s, '\n').last().len() == 0 <==> s.last() == '\n',
{
    split::lemma_pieces_nonempty(s.drop_last(), '\n');
}

pub proof fn lemma_raw_lines_unlines(kept: Seq<Seq<char>>, closed: bool)
    requires
        forall|k: int| 0 <= k < kept.len() ==> !(#[trigger] kept[k]).contains('\n'),
        !closed && kept.len() > 0 ==> kept.last().len() > 0,
    ensures
        split::raw_lines(unlines(kept, closed)) == kept,
        kept.len() > 0 ==> is_closed(unlines(kept, closed)) == closed,
{
    reveal_strlit("\n");
    assert("\n"@ =~= seq!['\n']);
    if kept.len() == 0 {
        assert(unlines(kept, closed) =~= seq![]);
        assert(split::raw_lines(seq![]) =~= kept);
    } else if closed {
        let more = kept.push(seq![]);
        assert forall|k: int| 0 <= k < more.len() implies !(#[trigger] more[k]).contains('\n') by {
            if k < kept.len() {
                assert(more[k] == kept[k]);
            }
        }
        split::law_pieces_join(more, '\n');
        assert(more.drop_last() =~= kept);
        assert(unlines(kept, closed) =~= split::join(more, "\n"@));
        assert(unlines(kept, closed).last() == '\n');
    } else {
        split::law_pieces_join(kept, '\n');
        assert(unlines(kept, closed) =~= split::join(kept, "\n"@));
        let s = unlines(kept, closed);
        let last = kept.last();
        assert(!kept[kept.len() - 1].contains('\n'));
        assert(s.len() >= last.len());
        assert(s.last() == last.last());
        assert(last[last.len() - 1] == s.last());
    }
}

/// The lines of a text never hold a line feed, and an empty last line means that the text
/// ends with one.
proof fn lemma_raw_lines_shape(s: Seq<char>)
    ensures
        forall|k: int|
            0 <= k < split::raw_lines(s).len() ==> !(#[trigger] split::raw_lines(s)[k]).contains(
                '\n',
            ),
        !is_closed(s) && split::raw_lines(s).len() > 0 ==> split::raw_lines(s).last().len() > 0,
{
    split::lemma_pieces_free(s, '\n');
    split::lemma_pieces_nonempty(s, '\n');
    let p = split::pieces(s, '\n');
    let r = split::raw_lines(s);
    assert forall|k: int| 0 <= k < r.len() implies !(#[trigger] r[k]).contains('\n') by {
        assert(r[k] == p[k]);
    }
    if s.len() > 0 {
        lemma_last_piece(s);
    }
}

proof fn lemma_part_keeps(part: Seq<Seq<char>>, whole: Seq<Seq<char>>)
    requires
        is_part_of(part, whole),
        forall|k: int| 0 <= k < whole.len() ==> !(#[trigger] whole[k]).contains('\n'),
    ensures
        forall|k: int| 0 <= k < part.len() ==> !(#[trigger] part[k]).contains('\n'),
    decreases whole.len(),
{
    if part.len() > 0 {
        let front = whole.drop_last();
        assert forall|k: int| 0 <= k < front.len() implies !(#[trigger] front[k]).contains('\n') by {
            assert(front[k] == whole[k]);
        }
        assert(!whole[whole.len() - 1].contains('\n'));
        if part.last() == whole.last() && is_part_of(part.drop_last(), front) {
            lemma_part_keeps(part.drop_last(), front);
            assert forall|k: int| 0 <= k < part.len() implies !(#[trigger] part[k]).contains(
                '\n',
            ) by {
                if k < part.len() - 1 {
                    assert(part.drop_last()[k] == part[k]);
                }
            }
        } else {
            lemma_part_keeps(part, front);
        }
    }
}

/// An empty last line of what is kept was the last line before.
proof fn lemma_swept_last(
    lines: Seq<Seq<char>>,
    settled: Seq<Seq<char>>,
    recent: Seq<Seq<char>>,
)
    requires
        lines.len() > 0 ==> lines.last().len() > 0,
        lines.len() == 0 && (settled + recent).len() > 0 ==> (settled + recent).last().len() > 0,
    ensures
        swept(lines, settled, recent).0.len() > 0 ==> swept(
            lines,
            settled,
            recent,
        ).0.last().len() > 0,
    decreases lines.len(),
{
    if lines.len() > 0 {
        if !opens_binding(lines[0]) {
            let after = lines.skip(1);
            if after.len() > 0 {
                assert(after.last() == lines.last());
            }
            lemma_swept_last(after, settled, recent.push(lines[0]));
        } else {
            lemma_block_end(lines);
            let end = block_end(lines);
            let after = lines.skip(end);
            if after.len() > 0 {
                assert(after.last() == lines.last());
            }
            if is_ours(lines.take(end)) {
                let none = Seq::<Seq<char>>::empty();
                let left = drop_blanks(settled + drop_comments(recent));
                lemma_last_not_blank(settled + drop_comments(recent));
                assert(left + none =~= left);
                lemma_swept_last(after, left, none);
            } else {
                let more = recent + lines.take(end);
                assert((settled + more).last() == lines[end - 1]);
                lemma_swept_last(after, settled, more);
            }
        }
    }
}

proof fn lemma_last_not_blank(kept: Seq<Seq<char>>)
    ensures
        drop_blanks(kept).len() > 0 ==> drop_blanks(kept).last().len() > 0,
    decreases kept.len(),
{
    if kept.len() > 0 {
        if text::is_blank(kept.last()) {
            lemma_last_not_blank(kept.drop_last());
        } else {
            let (a, b) = text::lemma_trimmed_bounds(kept.last());
        }
    }
}

/// A config without a binding to this plugin comes back as it is, character for character.
pub proof fn law_nothing_removed_nothing_changed(config: Seq<char>)
    requires
        without_ours(config).1 == 0,
    ensures
        without_ours(config).0 == config,
{
    let lines = split::raw_lines(config);
    let none = Seq::<Seq<char>>::empty();
    lemma_nothing_removed(lines, none, none);
    assert(none + none + lines =~= lines);
    lemma_unlines_raw_lines(config);
}

/// Once the bindings are taken out none is left: a second pass removes nothing and changes
/// nothing.
pub proof fn law_none_left(config: Seq<char>)
    ensures
        without_ours(without_ours(config).0) == (without_ours(config).0, 0nat),
{
    let lines = split::raw_lines(config);
    let none = Seq::<Seq<char>>::empty();
    let kept = swept(lines, none, none).0;
    let closed = is_closed(config);
    let out = without_ours(config).0;
    lemma_none_clean();
    assert(none + none =~= none);
    lemma_swept_is_clean(lines, none, none);
    law_rest_in_order(config);
    lemma_raw_lines_shape(config);
    lemma_part_keeps(kept, lines);
    if !closed {
        lemma_swept_last(lines, none, none);
    }
    lemma_raw_lines_unlines(kept, closed);
    lemma_clean_is_kept(kept, none, none);
    assert(none + none + kept =~= kept);
    if kept.len() == 0 {
        assert(out =~= seq![]);
        assert(unlines(kept, is_closed(out)) =~= out);
    }
}

/// Every line of the result is a line of the config, as it was, and in the same order.
pub proof fn law_rest_in_order(config: Seq<char>)
    ensures
        is_part_of(
            swept(split::raw_lines(config), seq![], seq![]).0,
            split::raw_lines(config),
        ),
{
    let lines = split::raw_lines(config);
    let none = Seq::<Seq<char>>::empty();
    assert(none + none =~= none);
    lemma_swept_part(lines, none, none, none);
    assert(none + lines =~= lines);
}

/// Lines without a block of ours, with a table behind them, go through unchanged.
proof fn lemma_clean_prefix(
    a: Seq<Seq<char>>,
    b: Seq<Seq<char>>,
    settled: Seq<Seq<char>>,
    recent: Seq<Seq<char>>,
)
    requires
        is_clean(a),
        b.len() > 0,
        opens_table(b[0]),
    ensures
        swept(a + b, settled, recent) == swept(b, settled, recent + a),
    decreases a.len(),
{
    let all = a + b;
    if a.len() == 0 {
        assert(all =~= b);
        assert(recent + a =~= recent);
    } else if !opens_binding(a[0]) {
        assert(all[0] == a[0]);
        assert(all.skip(1) =~= a.skip(1) + b);
        assert(recent.push(a[0]) + a.skip(1) =~= recent + a);
        lemma_clean_skip(a, 1);
        lemma_clean_prefix(a.skip(1), b, settled, recent.push(a[0]));
    } else {
        assert(all[0] == a[0]);
        let end = block_end(a);
        lemma_block_end(a);
        lemma_stop_before_table(a, b, 1);
        assert(block_end(all) == end);
        assert(all.take(end) =~= a.take(end));
        assert(all.skip(end) =~= a.skip(end) + b);
        assert(recent + a.take(end) + a.skip(end) =~= recent + a);
        lemma_first_block_not_ours(a);
        lemma_clean_skip(a, end);
        lemma_clean_prefix(a.skip(end), b, settled, recent + a.take(end));
    }
}

proof fn lemma_unlines_append(a: Seq<Seq<char>>, b: Seq<Seq<char>>)
    ensures
        unlines(a + b, true) == unlines(a, true) + unlines(b, true),
    decreases b.len(),
{
    if b.len() == 0 {
        assert(a + b =~= a);
        assert(unlines(b, true) =~= seq![]);
        assert(unlines(a, true) + unlines(b, true) =~= unlines(a, true));
    } else {
        let c = b.drop_last();
        lemma_unlines_append(a, c);
        assert((a + b).drop_last() =~= a + c);
        assert((a + b).last() == b.last());
        lemma_unlines_last(a + b);
        lemma_unlines_last(b);
        assert(unlines(a + b, true) =~= unlines(a, true) + unlines(b, true));
    }
}

proof fn lemma_unlines_last(a: Seq<Seq<char>>)
    requires
        a.len() > 0,
    ensures
        unlines(a, true) == unlines(a.drop_last(), true) + a.last() + "\n"@,
{
    let front = a.drop_last();
    if front.len() == 0 {
        assert(unlines(front, true) =~= seq![]);
        assert(unlines(a, true) =~= unlines(front, true) + a.last() + "\n"@);
    } else {
        assert(unlines(a, true) =~= unlines(front, true) + a.last() + "\n"@);
    }
}

/// Line `s` opens a binding, and the block names an action of this plugin.
pub open spec fn ours_at(lines: Seq<Seq<char>>, s: int) -> bool {
    0 <= s < lines.len() && opens_binding(lines[s]) && is_ours(
        lines.subrange(s, block_stop(lines, s + 1)),
    )
}

/// Line `i` belongs to a block of ours: it is one of its lines, or one of the comments that
/// stand right above it.
pub open spec fn belongs_to_ours(lines: Seq<Seq<char>>, i: int) -> bool {
    exists|s: int| #[trigger]
        ours_at(lines, s) && (s <= i < block_stop(lines, s + 1) || (i < s && forall|k: int|
            i <= k < s ==> is_comment(#[trigger] lines[k])))
}

/// The first `n` lines without the blank ones and those that belong to a block of ours.
pub open spec fn not_ours(lines: Seq<Seq<char>>, n: int) -> Seq<Seq<char>>
    decreases n,
{
    if n <= 0 {
        seq![]
    } else if text::is_blank(lines[n - 1]) || belongs_to_ours(lines, n - 1) {
        not_ours(lines, n - 1)
    } else {
        not_ours(lines, n - 1).push(lines[n - 1])
    }
}

/// The lines without the blank ones.
pub open spec fn solid(lines: Seq<Seq<char>>) -> Seq<Seq<char>>
    decreases lines.len(),
{
    if lines.len() == 0 {
        seq![]
    } else if text::is_blank(lines.last()) {
        solid(lines.drop_last())
    } else {
        solid(lines.drop_last()).push(lines.last())
    }
}

proof fn lemma_solid_blanks(kept: Seq<Seq<char>>)
    ensures
        solid(drop_blanks(kept)) == solid(kept),
    decreases kept.len(),
{
    if kept.len() > 0 && text::is_blank(kept.last()) {
        lemma_solid_blanks(kept.drop_last());
    }
}

proof fn lemma_stay(all: Seq<Seq<char>>, settled: Seq<Seq<char>>, a: int, b: int)
    requires
        0 <= a <= b <= all.len(),
        solid(settled) == not_ours(all, a),
        forall|i: int| a <= i < b ==> !#[trigger] belongs_to_ours(all, i),
    ensures
        solid(settled + all.subrange(a, b)) == not_ours(all, b),
    decreases b - a,
{
    let more = settled + all.subrange(a, b);
    if a == b {
        assert(more =~= settled);
    } else {
        lemma_stay(all, settled, a, b - 1);
        assert(more.drop_last() =~= settled + all.subrange(a, b - 1));
        assert(more.last() == all[b - 1]);
        assert(!belongs_to_ours(all, b - 1));
    }
}

proof fn lemma_go(all: Seq<Seq<char>>, a: int, b: int)
    requires
        0 <= a <= b <= all.len(),
        forall|i: int| a <= i < b ==> #[trigger] belongs_to_ours(all, i),
    ensures
        not_ours(all, b) == not_ours(all, a),
    decreases b - a,
{
    if a < b {
        lemma_go(all, a, b - 1);
        assert(belongs_to_ours(all, b - 1));
    }
}

/// Line `p` of the config is next; the lines from `b` on are `recent`.
proof fn lemma_swept_keeps(all: Seq<Seq<char>>, settled: Seq<Seq<char>>, b: int, p: int)
    requires
        0 <= b <= p <= all.len(),
        solid(settled) == not_ours(all, b),
        forall|s: int| b <= s < p ==> !#[trigger] ours_at(all, s),
        forall|s: int| s < b && #[trigger] ours_at(all, s) ==> block_stop(all, s + 1) <= b,
    ensures
        solid(swept(all.skip(p), settled, all.subrange(b, p)).0) == not_ours(
            all,
            all.len() as int,
        ),
    decreases all.len() - p,
{
    let rest = all.skip(p);
    let recent = all.subrange(b, p);
    if p == all.len() {
        assert forall|i: int| b <= i < p implies !#[trigger] belongs_to_ours(all, i) by {
            if belongs_to_ours(all, i) {
                let s = choose|s: int| #[trigger]
                    ours_at(all, s) && (s <= i < block_stop(all, s + 1) || (i < s && forall|k: int|
                        i <= k < s ==> is_comment(#[trigger] all[k])));
                assert(ours_at(all, s));
            }
        }
        lemma_stay(all, settled, b, p);
    } else if !opens_binding(all[p]) {
        assert(rest[0] == all[p]);
        assert(rest.skip(1) =~= all.skip(p + 1));
        assert(recent.push(all[p]) =~= all.subrange(b, p + 1));
        lemma_swept_keeps(all, settled, b, p + 1);
    } else {
        assert(rest[0] == all[p]);
        lemma_block_end(rest);
        lemma_stop_shift(all, p, p + 1);
        let end = block_end(rest);
        let q = p + end;
        let block = rest.take(end);
        assert(block =~= all.subrange(p, block_stop(all, p + 1)));
        assert(rest.skip(end) =~= all.skip(q));
        assert forall|s: int| p < s < q implies !#[trigger] ours_at(all, s) by {
            assert(rest[s - p] == all[s]);
        }
        if is_ours(block) {
            assert(ours_at(all, p));
            let none = Seq::<Seq<char>>::empty();
            let m = lemma_comments_take(recent);
            assert forall|i: int| b <= i < b + m implies !#[trigger] belongs_to_ours(all, i) by {
                if belongs_to_ours(all, i) {
                    let s = choose|s: int| #[trigger]
                        ours_at(all, s) && (s <= i < block_stop(all, s + 1) || (i < s
                            && forall|k: int| i <= k < s ==> is_comment(#[trigger] all[k])));
                    assert(ours_at(all, s));
                    assert(s >= p);
                    assert(recent[m - 1] == all[b + m - 1]);
                    assert(is_comment(all[b + m - 1]));
                }
            }
            lemma_stay(all, settled, b, b + m);
            assert(all.subrange(b, b + m) =~= recent.take(m));
            assert forall|i: int| b + m <= i < q implies #[trigger] belongs_to_ours(all, i) by {
                if i < p {
                    assert forall|k: int| i <= k < p implies is_comment(#[trigger] all[k]) by {
                        assert(recent[k - b] == all[k]);
                    }
                }
                assert(ours_at(all, p));
            }
            lemma_go(all, b + m, q);
            let left = drop_blanks(settled + drop_comments(recent));
            lemma_solid_blanks(settled + drop_comments(recent));
            assert(all.subrange(q, q) =~= none);
            lemma_swept_keeps(all, left, q, q);
        } else {
            assert(!ours_at(all, p));
            assert(recent + block =~= all.subrange(b, q));
            lemma_swept_keeps(all, settled, b, q);
        }
    }
}

/// Blank lines aside, what is left are exactly the lines that do not belong to a binding of
/// ours: nothing goes but the blocks that name an action of this plugin and the comments
/// right above them. A comment that a blank line parts from the block stays, be it above the
/// block or below its last line.
pub proof fn law_only_ours_goes(config: Seq<char>)
    ensures
        solid(swept(split::raw_lines(config), seq![], seq![]).0) == not_ours(
            split::raw_lines(config),
            split::raw_lines(config).len() as int,
        ),
{
    let lines = split::raw_lines(config);
    assert(lines.skip(0) =~= lines);
    assert(lines.subrange(0, 0) =~= seq![]);
    lemma_swept_keeps(lines, seq![], 0, 0);
}

/// A block of ours put behind `existing` as a stanza of its own is taken out again without
/// a trace: what is left is `existing`, character for character.
///
/// `existing` holds no binding to this plugin, and it is empty or ends with a line that is
/// not blank.
pub proof fn law_appended_block_leaves_no_trace(existing: Seq<char>, block: Seq<Seq<char>>)
    requires
        without_ours(existing).1 == 0,
        existing.len() > 0 ==> is_closed(existing) && !text::is_blank(
            split::raw_lines(existing).last(),
        ),
        block.len() > 0,
        opens_binding(block[0]),
        is_ours(block),
        block_end(block) == block.len(),
        forall|k: int| 0 <= k < block.len() ==> !(#[trigger] block[k]).contains('\n'),
    ensures
        without_ours(
            if existing.len() == 0 {
                unlines(block, true)
            } else {
                existing + "\n"@ + unlines(block, true)
            },
        ) == (existing, 1nat),
{
    let none = Seq::<Seq<char>>::empty();
    let old_lines = split::raw_lines(existing);
    let gap = if existing.len() == 0 {
        none
    } else {
        seq![Seq::<char>::empty()]
    };
    let front = old_lines + gap;
    let all = front + block;
    let config = if existing.len() == 0 {
        unlines(block, true)
    } else {
        existing + "\n"@ + unlines(block, true)
    };
    lemma_unlines_raw_lines(existing);
    lemma_raw_lines_shape(existing);
    // The config, line by line.
    if existing.len() == 0 {
        assert(split::pieces(existing, '\n').last() =~= seq![]);
        assert(old_lines =~= none);
        assert(all =~= block);
    } else {
        lemma_unlines_append(front, block);
        lemma_unlines_append(old_lines, gap);
        assert(unlines(gap, true) =~= "\n"@);
    }
    assert(config =~= unlines(all, true));
    assert forall|k: int| 0 <= k < all.len() implies !(#[trigger] all[k]).contains('\n') by {
        if k < old_lines.len() {
            assert(all[k] == old_lines[k]);
        } else if k >= front.len() {
            assert(all[k] == block[k - front.len()]);
        }
    }
    lemma_raw_lines_unlines(all, true);
    // What is in front of the block is kept.
    lemma_nothing_removed(old_lines, none, none);
    assert(none + none + old_lines =~= old_lines);
    lemma_none_clean();
    assert(none + none =~= none);
    lemma_swept_is_clean(old_lines, none, none);
    assert(is_clean(front)) by {
        if existing.len() > 0 {
            let blank = Seq::<char>::empty();
            assert(text::trimmed(blank) =~= blank);
            assert(text::trim_start(blank) =~= blank);
            lemma_table_end(gap, 0);
            assert(only_loose(gap, 0));
            assert(closes_block(gap, 0));
            lemma_push_clean(old_lines, gap);
            assert(front =~= old_lines.push(blank));
        } else {
            assert(front =~= none);
        }
    }
    lemma_clean_prefix(front, block, none, none);
    assert(none + front =~= front);
    // The block goes, and the blank line with it.
    assert(block.take(block_end(block)) =~= block);
    assert(block.skip(block_end(block)) =~= none);
    if existing.len() == 0 {
        assert(drop_blanks(none + drop_comments(front)) =~= old_lines);
    } else {
        let blank = front.last();
        assert(text::trim_start(blank) =~= seq![]);
        assert(text::is_blank(blank));
        assert(drop_comments(front) == front);
        assert(front.drop_last() =~= old_lines);
        assert(old_lines.len() > 0) by {
            lemma_last_piece(existing);
            split::lemma_pieces_nonempty(existing.drop_last(), '\n');
        }
        assert(drop_blanks(old_lines) == old_lines);
        assert(drop_blanks(front) == old_lines);
    }
    assert(none + drop_comments(front) =~= drop_comments(front));
    assert(old_lines + none =~= old_lines);
    assert(swept(none, old_lines, none) == (old_lines, 0nat));
    assert(swept(block, none, front) == (old_lines, 1nat));
    assert(is_closed(config)) by {
        assert(all.len() > 0);
    }
    if existing.len() == 0 {
        assert(unlines(old_lines, true) =~= existing);
    }
}

/// Line `i` belongs to a block of ours that starts in front of line `m`.
pub open spec fn belongs_before(lines: Seq<Seq<char>>, i: int, m: int) -> bool {
    exists|s: int| #[trigger]
        ours_at(lines, s) && s < m && (s <= i < block_stop(lines, s + 1) || (i < s && forall|k: int|
            i <= k < s ==> is_comment(#[trigger] lines[k])))
}

/// Line `i` is taken out with the blocks of ours that start in front of line `m`: it belongs
/// to one of them, or it is blank and nothing but such lines and blank ones stand between it
/// and one of them.
pub open spec fn goes_before(lines: Seq<Seq<char>>, i: int, m: int) -> bool {
    ||| belongs_before(lines, i, m)
    ||| text::is_blank(lines[i]) && exists|s: int| #[trigger]
        ours_at(lines, s) && i < s < m && forall|k: int|
            i <= k < s ==> text::is_blank(#[trigger] lines[k]) || belongs_before(lines, k, m)
}

/// The first `n` lines without those that are taken out.
pub open spec fn stays_before(lines: Seq<Seq<char>>, n: int, m: int) -> Seq<Seq<char>>
    decreases n,
{
    if n <= 0 {
        seq![]
    } else if goes_before(lines, n - 1, m) {
        stays_before(lines, n - 1, m)
    } else {
        stays_before(lines, n - 1, m).push(lines[n - 1])
    }
}

/// How many of the first `n` lines start a block of ours.
pub open spec fn count_ours(lines: Seq<Seq<char>>, n: int) -> nat
    decreases n,
{
    if n <= 0 {
        0
    } else if ours_at(lines, n - 1) {
        count_ours(lines, n - 1) + 1
    } else {
        count_ours(lines, n - 1)
    }
}

proof fn lemma_stays_append(lines: Seq<Seq<char>>, a: int, b: int, m: int)
    requires
        0 <= a <= b <= lines.len(),
        forall|i: int| a <= i < b ==> !#[trigger] goes_before(lines, i, m),
    ensures
        stays_before(lines, b, m) == stays_before(lines, a, m) + lines.subrange(a, b),
    decreases b - a,
{
    if a == b {
        assert(stays_before(lines, a, m) + lines.subrange(a, b) =~= stays_before(lines, a, m));
    } else {
        lemma_stays_append(lines, a, b - 1, m);
        assert(!goes_before(lines, b - 1, m));
        assert(stays_before(lines, b, m) =~= stays_before(lines, a, m) + lines.subrange(a, b));
    }
}

proof fn lemma_stays_same(lines: Seq<Seq<char>>, n: int, m: int, q: int)
    requires
        forall|i: int|
            0 <= i < n ==> #[trigger] goes_before(lines, i, m) == goes_before(lines, i, q),
    ensures
        stays_before(lines, n, m) == stays_before(lines, n, q),
    decreases n,
{
    if n > 0 {
        assert(goes_before(lines, n - 1, m) == goes_before(lines, n - 1, q));
        lemma_stays_same(lines, n - 1, m, q);
    }
}

proof fn lemma_goes_skip(lines: Seq<Seq<char>>, a: int, b: int, m: int)
    requires
        0 <= a <= b,
        forall|i: int| a <= i < b ==> #[trigger] goes_before(lines, i, m),
    ensures
        stays_before(lines, b, m) == stays_before(lines, a, m),
    decreases b - a,
{
    if a < b {
        assert(goes_before(lines, b - 1, m));
        lemma_goes_skip(lines, a, b - 1, m);
    }
}

proof fn lemma_count_none(lines: Seq<Seq<char>>, a: int, b: int)
    requires
        0 <= a <= b,
        forall|s: int| a <= s < b ==> !#[trigger] ours_at(lines, s),
    ensures
        count_ours(lines, b) == count_ours(lines, a),
    decreases b - a,
{
    if a < b {
        assert(!ours_at(lines, b - 1));
        lemma_count_none(lines, a, b - 1);
    }
}

/// Without a block of ours between `m` and `q`, both bounds take out the same lines.
proof fn lemma_goes_equal(lines: Seq<Seq<char>>, i: int, m: int, q: int)
    requires
        m <= q,
        forall|s: int| m <= s < q ==> !#[trigger] ours_at(lines, s),
    ensures
        goes_before(lines, i, m) == goes_before(lines, i, q),
        belongs_before(lines, i, m) == belongs_before(lines, i, q),
{
    assert forall|k: int| #[trigger] belongs_before(lines, k, m) == belongs_before(lines, k, q) by {
        lemma_belongs_equal(lines, k, m, q);
    }
    if goes_before(lines, i, m) && !belongs_before(lines, i, m) {
        let s = choose|s: int| #[trigger]
            ours_at(lines, s) && i < s < m && forall|k: int|
                i <= k < s ==> text::is_blank(#[trigger] lines[k]) || belongs_before(lines, k, m);
        assert forall|k: int| i <= k < s implies text::is_blank(#[trigger] lines[k])
            || belongs_before(lines, k, q) by {
            assert(belongs_before(lines, k, m) == belongs_before(lines, k, q));
        }
        assert(ours_at(lines, s));
    }
    if goes_before(lines, i, q) && !belongs_before(lines, i, q) {
        let s = choose|s: int| #[trigger]
            ours_at(lines, s) && i < s < q && forall|k: int|
                i <= k < s ==> text::is_blank(#[trigger] lines[k]) || belongs_before(lines, k, q);
        assert forall|k: int| i <= k < s implies text::is_blank(#[trigger] lines[k])
            || belongs_before(lines, k, m) by {
            assert(belongs_before(lines, k, m) == belongs_before(lines, k, q));
        }
        assert(ours_at(lines, s));
    }
}

proof fn lemma_belongs_equal(lines: Seq<Seq<char>>, i: int, m: int, q: int)
    requires
        m <= q,
        forall|s: int| m <= s < q ==> !#[trigger] ours_at(lines, s),
    ensures
        belongs_before(lines, i, m) == belongs_before(lines, i, q),
{
    if belongs_before(lines, i, m) {
        let s = choose|s: int| #[trigger]
            ours_at(lines, s) && s < m && (s <= i < block_stop(lines, s + 1) || (i < s
                && forall|k: int| i <= k < s ==> is_comment(#[trigger] lines[k])));
        assert(ours_at(lines, s));
    }
    if belongs_before(lines, i, q) {
        let s = choose|s: int| #[trigger]
            ours_at(lines, s) && s < q && (s <= i < block_stop(lines, s + 1) || (i < s
                && forall|k: int| i <= k < s ==> is_comment(#[trigger] lines[k])));
        assert(ours_at(lines, s));
    }
}

/// `b` is the start of the config, or the end of a block of ours, and no block of ours that
/// starts in front of it goes on behind it.
spec fn is_cut(lines: Seq<Seq<char>>, b: int) -> bool {
    &&& 0 <= b <= lines.len()
    &&& b > 0 ==> exists|s: int| #[trigger]
        ours_at(lines, s) && s < b && block_stop(lines, s + 1) == b
    &&& forall|s: int| s < b && #[trigger] ours_at(lines, s) ==> block_stop(lines, s + 1) <= b
}

proof fn lemma_behind_cut(lines: Seq<Seq<char>>, b: int, i: int)
    requires
        is_cut(lines, b),
        b <= i,
    ensures
        !belongs_before(lines, i, b),
        !goes_before(lines, i, b),
{
    if belongs_before(lines, i, b) {
        let s = choose|s: int| #[trigger]
            ours_at(lines, s) && s < b && (s <= i < block_stop(lines, s + 1) || (i < s
                && forall|k: int| i <= k < s ==> is_comment(#[trigger] lines[k])));
        assert(ours_at(lines, s));
    }
}

/// The block at `p` is the only one of ours from `b` to `q`, where it ends; its comments
/// start at `c`.
spec fn is_next(lines: Seq<Seq<char>>, b: int, c: int, p: int, q: int) -> bool {
    &&& is_cut(lines, b)
    &&& b <= c <= p < q <= lines.len()
    &&& ours_at(lines, p)
    &&& q == block_stop(lines, p + 1)
    &&& forall|s: int| b <= s < q && s != p ==> !#[trigger] ours_at(lines, s)
    &&& forall|k: int| c <= k < p ==> is_comment(#[trigger] lines[k])
    &&& c > b ==> !is_comment(lines[c - 1])
}

/// In front of its comments, the block adds nothing to what belongs to a block of ours.
proof fn lemma_next_belongs(lines: Seq<Seq<char>>, b: int, c: int, p: int, q: int, i: int)
    requires
        is_next(lines, b, c, p, q),
        0 <= i < c,
    ensures
        belongs_before(lines, i, q) == belongs_before(lines, i, b),
{
    if belongs_before(lines, i, q) {
        let s = choose|s: int| #[trigger]
            ours_at(lines, s) && s < q && (s <= i < block_stop(lines, s + 1) || (i < s
                && forall|k: int| i <= k < s ==> is_comment(#[trigger] lines[k])));
        assert(ours_at(lines, s));
        if s >= b {
            assert(s == p);
            if c > b {
                assert(is_comment(lines[c - 1]));
            } else {
                // The comments reach back into the block that ends here, at most to its header.
                let e = choose|e: int| #[trigger]
                    ours_at(lines, e) && e < b && block_stop(lines, e + 1) == b;
                assert(opens_table(lines[e]));
                assert(!is_comment(lines[e]));
                assert(i > e);
                assert(ours_at(lines, e));
                assert(belongs_before(lines, i, b));
            }
        } else {
            assert(belongs_before(lines, i, b));
        }
    }
    if belongs_before(lines, i, b) {
        let s = choose|s: int| #[trigger]
            ours_at(lines, s) && s < b && (s <= i < block_stop(lines, s + 1) || (i < s
                && forall|k: int| i <= k < s ==> is_comment(#[trigger] lines[k])));
        assert(ours_at(lines, s));
        assert(belongs_before(lines, i, q));
    }
}

/// A line in front of one that stays goes with the earlier blocks or not at all.
proof fn lemma_shielded(lines: Seq<Seq<char>>, b: int, c: int, p: int, q: int, j: int, i: int)
    requires
        is_next(lines, b, c, p, q),
        0 <= i < j < c,
        !text::is_blank(lines[j]),
        !belongs_before(lines, j, q),
    ensures
        goes_before(lines, i, b) == goes_before(lines, i, q),
{
    lemma_next_belongs(lines, b, c, p, q, i);
    if !belongs_before(lines, i, b) {
        if goes_before(lines, i, q) {
            let s = choose|s: int| #[trigger]
                ours_at(lines, s) && i < s < q && forall|k: int|
                    i <= k < s ==> text::is_blank(#[trigger] lines[k]) || belongs_before(
                        lines,
                        k,
                        q,
                    );
            assert(ours_at(lines, s));
            if s >= b {
                assert(s == p);
                assert(text::is_blank(lines[j]) || belongs_before(lines, j, q));
            }
            assert forall|k: int| i <= k < s implies text::is_blank(#[trigger] lines[k])
                || belongs_before(lines, k, b) by {
                lemma_next_belongs(lines, b, c, p, q, k);
            }
            assert(goes_before(lines, i, b));
        }
        if goes_before(lines, i, b) {
            let s = choose|s: int| #[trigger]
                ours_at(lines, s) && i < s < b && forall|k: int|
                    i <= k < s ==> text::is_blank(#[trigger] lines[k]) || belongs_before(
                        lines,
                        k,
                        b,
                    );
            assert(ours_at(lines, s));
            assert forall|k: int| i <= k < s implies text::is_blank(#[trigger] lines[k])
                || belongs_before(lines, k, q) by {
                lemma_next_belongs(lines, b, c, p, q, k);
            }
            assert(goes_before(lines, i, q));
        }
    }
}

/// Of what stays in front of the next block, the blank lines at the end go with it.
proof fn lemma_trailing_blanks(
    lines: Seq<Seq<char>>,
    b: int,
    c: int,
    p: int,
    q: int,
    n: int,
)
    requires
        is_next(lines, b, c, p, q),
        0 <= n <= c,
        forall|k: int|
            n <= k < p ==> text::is_blank(#[trigger] lines[k]) || belongs_before(lines, k, q),
    ensures
        stays_before(lines, n, q) == drop_blanks(stays_before(lines, n, b)),
    decreases n,
{
    if n > 0 {
        let j = n - 1;
        lemma_next_belongs(lines, b, c, p, q, j);
        if text::is_blank(lines[j]) || belongs_before(lines, j, b) {
            assert forall|k: int| j <= k < p implies text::is_blank(#[trigger] lines[k])
                || belongs_before(lines, k, q) by {}
            lemma_trailing_blanks(lines, b, c, p, q, j);
            assert(goes_before(lines, j, q)) by {
                if !belongs_before(lines, j, q) {
                    assert(ours_at(lines, p));
                }
            }
            if !goes_before(lines, j, b) {
                let front = stays_before(lines, j, b);
                assert(front.push(lines[j]).drop_last() =~= front);
            }
        } else {
            assert(!goes_before(lines, j, b));
            assert(!goes_before(lines, j, q));
            assert forall|i: int| 0 <= i < j implies #[trigger] goes_before(lines, i, b)
                == goes_before(lines, i, q) by {
                lemma_shielded(lines, b, c, p, q, j, i);
            }
            lemma_stays_same(lines, j, b, q);
        }
    }
}

/// Line `p` of the config is next; the lines from `b` on are `recent`.
proof fn lemma_swept_exactly(all: Seq<Seq<char>>, b: int, p: int)
    requires
        is_cut(all, b),
        b <= p <= all.len(),
        forall|s: int| b <= s < p ==> !#[trigger] ours_at(all, s),
    ensures
        ({
            let (kept, removed) = swept(
                all.skip(p),
                stays_before(all, b, b),
                all.subrange(b, p),
            );
            &&& kept == stays_before(all, all.len() as int, all.len() as int)
            &&& count_ours(all, p) + removed == count_ours(all, all.len() as int)
        }),
    decreases all.len() - p,
{
    let rest = all.skip(p);
    let recent = all.subrange(b, p);
    let settled = stays_before(all, b, b);
    let n = all.len() as int;
    if p == n {
        assert forall|i: int| 0 <= i < n implies #[trigger] goes_before(all, i, b) == goes_before(
            all,
            i,
            n,
        ) by {
            lemma_goes_equal(all, i, b, n);
        }
        lemma_stays_same(all, n, b, n);
        assert forall|i: int| b <= i < n implies !#[trigger] goes_before(all, i, b) by {
            lemma_behind_cut(all, b, i);
        }
        lemma_stays_append(all, b, n, b);
    } else if !opens_binding(all[p]) {
        assert(rest[0] == all[p]);
        assert(rest.skip(1) =~= all.skip(p + 1));
        assert(recent.push(all[p]) =~= all.subrange(b, p + 1));
        assert(!ours_at(all, p));
        lemma_swept_exactly(all, b, p + 1);
    } else {
        assert(rest[0] == all[p]);
        lemma_block_end(rest);
        lemma_stop_shift(all, p, p + 1);
        let end = block_end(rest);
        let q = p + end;
        let block = rest.take(end);
        assert(block =~= all.subrange(p, block_stop(all, p + 1)));
        assert(rest.skip(end) =~= all.skip(q));
        assert forall|s: int| p < s < q implies !#[trigger] ours_at(all, s) by {
            assert(rest[s - p] == all[s]);
        }
        if is_ours(block) {
            assert(ours_at(all, p));
            let none = Seq::<Seq<char>>::empty();
            let m = lemma_comments_take(recent);
            let c = b + m;
            assert forall|k: int| c <= k < p implies is_comment(#[trigger] all[k]) by {
                assert(recent[k - b] == all[k]);
            }
            if m > 0 {
                assert(recent[m - 1] == all[c - 1]);
            }
            assert(is_next(all, b, c, p, q));
            assert forall|i: int| b <= i < c implies !#[trigger] goes_before(all, i, b) by {
                lemma_behind_cut(all, b, i);
            }
            lemma_stays_append(all, b, c, b);
            assert(all.subrange(b, c) =~= recent.take(m));
            assert forall|i: int| c <= i < q implies #[trigger] belongs_before(all, i, q) by {
                assert(ours_at(all, p));
            }
            lemma_trailing_blanks(all, b, c, p, q, c);
            assert forall|i: int| c <= i < q implies #[trigger] goes_before(all, i, q) by {
                assert(belongs_before(all, i, q));
            }
            lemma_goes_skip(all, c, q, q);
            assert(is_cut(all, q)) by {
                assert forall|s: int| s < q && #[trigger] ours_at(all, s) implies block_stop(
                    all,
                    s + 1,
                ) <= q by {
                    if b <= s && s != p {
                        assert(!ours_at(all, s));
                    }
                }
            }
            assert(all.subrange(q, q) =~= none);
            lemma_count_none(all, p + 1, q);
            lemma_swept_exactly(all, q, q);
        } else {
            assert(!ours_at(all, p));
            assert(recent + block =~= all.subrange(b, q));
            lemma_count_none(all, p, q);
            lemma_swept_exactly(all, b, q);
        }
    }
}

/// What is left of a config are exactly the lines that are not taken out, and as many blocks
/// are taken out as there are of ours. A line is taken out where it belongs to a block of
/// ours, as one of its lines or as a comment right above it, and where it is blank and
/// nothing but such lines and blank ones stand between it and a block of ours below.
pub proof fn law_exactly_ours_goes(config: Seq<char>)
    ensures
        ({
            let lines = split::raw_lines(config);
            let n = lines.len() as int;
            &&& without_ours(config).0 == unlines(stays_before(lines, n, n), is_closed(config))
            &&& without_ours(config).1 == count_ours(lines, n)
        }),
{
    let lines = split::raw_lines(config);
    assert(lines.skip(0) =~= lines);
    assert(lines.subrange(0, 0) =~= seq![]);
    lemma_swept_exactly(lines, 0, 0);
}

/// A name of a key as TOML takes it: bare, or between quotes of either kind.
pub open spec fn writes(written: Seq<char>, name: Seq<char>) -> bool {
    ||| written == name
    ||| written == seq!['"'] + name + seq!['"']
    ||| written == seq!['\''] + name + seq!['\'']
}

/// A header of a binding is one in whatever way it is written: with white space in front of
/// it, around its names and behind it, with quotes around a name, and with a comment behind.
pub proof fn law_headers(
    indent: Seq<char>,
    a: Seq<char>,
    keys: Seq<char>,
    b: Seq<char>,
    c: Seq<char>,
    command: Seq<char>,
    d: Seq<char>,
    tail: Seq<char>,
)
    requires
        writes(keys, "keys"@),
        writes(command, "command"@),
        text::all_white(indent),
        text::all_white(a),
        text::all_white(b),
        text::all_white(c),
        text::all_white(d),
        text::all_white(tail) || is_comment(tail),
    ensures
        opens_binding(
            indent + seq!['[', '['] + (a + keys + b) + seq!['.'] + (c + command + d) + seq![
                ']',
                ']',
            ] + tail,
        ),
{
    reveal_strlit("keys");
    reveal_strlit("command");
    reveal_strlit("\"");
    reveal_strlit("'");
    assert("\""@ =~= seq!['"']);
    assert("'"@ =~= seq!['\'']);
    let none = Seq::<char>::empty();
    let first = a + keys + b;
    let second = c + command + d;
    let key = first.push('.') + second;
    let head = seq!['[', '['] + key;
    let front = indent + head;
    let line = indent + seq!['[', '['] + first + seq!['.'] + second + seq![']', ']'] + tail;
    lemma_white_free(a, ']');
    lemma_white_free(b, ']');
    lemma_white_free(c, ']');
    lemma_white_free(d, ']');
    lemma_white_free(indent, ']');
    lemma_white_free(a, '.');
    lemma_white_free(b, '.');
    lemma_white_free(c, '.');
    lemma_white_free(d, '.');
    assert(!first.contains('.') && !first.contains(']')) by {
        lemma_free_concat(a, keys, b, '.');
        lemma_free_concat(a, keys, b, ']');
    }
    assert(!second.contains('.') && !second.contains(']')) by {
        lemma_free_concat(c, command, d, '.');
        lemma_free_concat(c, command, d, ']');
    }
    // The key between the brackets.
    split::lemma_pieces_concat(first, second, '.');
    split::lemma_pieces_single(first, '.');
    split::lemma_pieces_single(second, '.');
    assert(split::pieces(key, '.') =~= seq![first, second]);
    text::law_trimmed(a, keys, b);
    text::law_trimmed(c, command, d);
    assert(is_binding_key(key));
    // The line, cut at the closing brackets.
    assert(!front.contains(']')) by {
        assert forall|i: int| 0 <= i < front.len() implies front[i] != ']' by {
            if i < indent.len() {
                assert(front[i] == indent[i]);
                assert(!indent.contains(']'));
            } else if i >= indent.len() + 2 {
                let j = i - indent.len() - 2;
                assert(front[i] == key[j]);
                if j < first.len() {
                    assert(key[j] == first[j]);
                    assert(!first.contains(']'));
                } else if j > first.len() {
                    assert(key[j] == second[j - first.len() - 1]);
                    assert(!second.contains(']'));
                }
            }
        }
    }
    let end = none.push(']') + tail;
    assert(line =~= front.push(']') + end);
    split::lemma_pieces_concat(front, end, ']');
    split::lemma_pieces_concat(none, tail, ']');
    split::lemma_pieces_single(front, ']');
    split::lemma_pieces_single(none, ']');
    split::lemma_pieces_nonempty(tail, ']');
    let cut = split::pieces(line, ']');
    assert(cut =~= seq![front, none] + split::pieces(tail, ']'));
    lemma_trim_front(indent, head);
    assert(head.skip(2) =~= key);
    lemma_trim_front(indent, head.push(']') + end);
    assert(indent + (head.push(']') + end) =~= line);
    lemma_first_piece(tail);
    if text::all_white(tail) {
        lemma_white_free(tail, ']');
        split::lemma_pieces_single(tail, ']');
        text::law_blank(tail);
    }
}

proof fn lemma_white_free(s: Seq<char>, c: char)
    requires
        text::all_white(s),
        !text::is_white(c),
    ensures
        !s.contains(c),
{
    assert forall|i: int| 0 <= i < s.len() implies s[i] != c by {
        assert(text::is_white(s[i]));
    }
}

proof fn lemma_free_concat(a: Seq<char>, b: Seq<char>, c: Seq<char>, x: char)
    requires
        !a.contains(x),
        !b.contains(x),
        !c.contains(x),
    ensures
        !(a + b + c).contains(x),
{
    let s = a + b + c;
    assert forall|i: int| 0 <= i < s.len() implies s[i] != x by {
        if i < a.len() {
            assert(s[i] == a[i]);
        } else if i < a.len() + b.len() {
            assert(s[i] == b[i - a.len()]);
        } else {
            assert(s[i] == c[i - a.len() - b.len()]);
        }
    }
}

proof fn lemma_trim_front(white: Seq<char>, s: Seq<char>)
    requires
        text::all_white(white),
        s.len() > 0,
        !text::is_white(s[0]),
    ensures
        text::trim_start(white + s) == s,
    decreases white.len(),
{
    let whole = white + s;
    if white.len() == 0 {
        assert(whole =~= s);
    } else {
        let fewer = white.drop_first();
        assert(whole[0] == white[0]);
        assert(whole.drop_first() =~= fewer + s);
        assert forall|i: int| 0 <= i < fewer.len() implies text::is_white(#[trigger] fewer[i]) by {
            assert(fewer[i] == white[i + 1]);
        }
        lemma_trim_front(fewer, s);
    }
}

/// A comment is still one when it is cut at a bracket.
proof fn lemma_first_piece(tail: Seq<char>)
    ensures
        is_comment(tail) ==> is_comment(split::pieces(tail, ']')[0]),
    decreases tail.len(),
{
    if tail.len() > 0 {
        let front = tail.drop_last();
        lemma_first_piece(front);
        split::lemma_pieces_nonempty(front, ']');
        let before = split::pieces(front, ']');
        let now = split::pieces(tail, ']');
        if is_comment(tail) {
            lemma_comment_front(tail);
            if is_comment(front) {
                if now[0] != before[0] {
                    assert(now[0] == before[0].push(tail.last()));
                    lemma_comment_longer(before[0], tail.last());
                }
            } else {
                // The last character is the number sign, behind nothing but white space.
                lemma_white_free(front, ']');
                split::lemma_pieces_single(front, ']');
                assert(now[0] =~= tail);
            }
        }
    }
}

proof fn lemma_comment_longer(s: Seq<char>, c: char)
    requires
        is_comment(s),
    ensures
        is_comment(s.push(c)),
    decreases s.len(),
{
    if text::is_white(s[0]) {
        lemma_comment_longer(s.drop_first(), c);
        assert(s.push(c).drop_first() =~= s.drop_first().push(c));
    }
    assert(s.push(c)[0] == s[0]);
}

proof fn lemma_comment_front(s: Seq<char>)
    requires
        is_comment(s),
    ensures
        is_comment(s.drop_last()) || (text::all_white(s.drop_last()) && s.last() == '#'),
    decreases s.len(),
{
    if text::is_white(s[0]) {
        let t = s.drop_first();
        lemma_comment_front(t);
        assert(s.drop_last().drop_first() =~= t.drop_last());
        assert(s.drop_last().len() > 0);
        assert(s.drop_last()[0] == s[0]);
        if text::all_white(t.drop_last()) && t.last() == '#' {
            let w = s.drop_last();
            assert forall|i: int| 0 <= i < w.len() implies text::is_white(#[trigger] w[i]) by {
                if i > 0 {
                    assert(t.drop_last()[i - 1] == w[i]);
                }
            }
        }
    } else if s.len() > 1 {
        assert(s.drop_last()[0] == s[0]);
    }
}

/// A line names the plugin where it is no comment and the plugin's name stands in it behind
/// a quote of either kind, whatever stands around it.
pub proof fn law_names_plugin(before: Seq<char>, after: Seq<char>)
    ensures
        ({
            let double = before + "\"herdr-ssh-manager."@ + after;
            let single = before + "'herdr-ssh-manager."@ + after;
            &&& names_plugin(double) <==> !is_comment(double)
            &&& names_plugin(single) <==> !is_comment(single)
        }),
{
    let n = before.len() as int;
    let a = "\"herdr-ssh-manager."@;
    let b = "'herdr-ssh-manager."@;
    let double = before + a + after;
    let single = before + b + after;
    assert(double.subrange(n, n + a.len()) =~= a);
    assert(single.subrange(n, n + b.len()) =~= b);
    assert(text::occurs_at(double, a, n));
    assert(text::occurs_at(single, b, n));
}

/// A block goes on to its last line that says something, and over comments right below that;
/// it ends in front of a blank line behind which only comments and blank lines follow up to
/// the next table, and in front of that table in any case.
pub proof fn law_where_a_block_ends(
    head: Seq<char>,
    body: Seq<Seq<char>>,
    gap: Seq<Seq<char>>,
    rest: Seq<Seq<char>>,
)
    requires
        forall|i: int| 0 <= i < body.len() ==> !opens_table(#[trigger] body[i]),
        body.len() > 0 ==> !text::is_blank(body.last()),
        forall|i: int| 0 <= i < gap.len() ==> !opens_table(#[trigger] gap[i]),
        forall|i: int|
            0 <= i < gap.len() ==> text::is_blank(#[trigger] gap[i]) || is_comment(gap[i]),
        gap.len() > 0 ==> text::is_blank(gap[0]),
        rest.len() > 0 ==> opens_table(rest[0]),
        forall|i: int|
            0 <= i < body.len() && text::is_blank(#[trigger] body[i]) ==> exists|j: int|
                i < j < body.len() && !text::is_blank(#[trigger] body[j]) && !is_comment(body[j]),
    ensures
        block_end(seq![head] + body + gap + rest) == 1 + body.len(),
{
    let lines = seq![head] + body + gap + rest;
    let e: int = 1 + body.len() as int;
    let t = e + gap.len();
    lemma_table_end_is(lines, 1, t);
    assert forall|k: int| 1 <= k < e implies !#[trigger] closes_block(lines, k) by {
        assert(lines[k] == body[k - 1]);
        if text::is_blank(body[k - 1]) {
            let j = choose|j: int|
                k - 1 < j < body.len() && !text::is_blank(#[trigger] body[j]) && !is_comment(
                    body[j],
                );
            lemma_end_from(lines, 1, k);
            assert(lines[j + 1] == body[j]);
            assert(!is_loose(lines[j + 1]));
        }
    }
    if e < lines.len() {
        assert(closes_block(lines, e)) by {
            if gap.len() > 0 {
                assert(lines[e] == gap[0]);
                lemma_end_from(lines, 1, e);
                assert forall|j: int| e <= j < table_end(lines, e) implies is_loose(
                    #[trigger] lines[j],
                ) by {
                    assert(lines[j] == gap[j - e]);
                }
            } else {
                assert(lines[e] == rest[0]);
            }
        }
    }
    lemma_stop_is(lines, 1, e);
}

proof fn lemma_table_end_is(lines: Seq<Seq<char>>, i: int, t: int)
    requires
        0 <= i <= t <= lines.len(),
        forall|k: int| i <= k < t ==> !opens_table(#[trigger] lines[k]),
        t < lines.len() ==> opens_table(lines[t]),
    ensures
        table_end(lines, i) == t,
    decreases t - i,
{
    if i < t {
        assert(!opens_table(lines[i]));
        lemma_table_end_is(lines, i + 1, t);
    }
}

/// A block is ours where any of its lines names an action of this plugin, wherever in the
/// block that line stands, and only there.
pub proof fn law_which_blocks_are_ours(
    before: Seq<Seq<char>>,
    line: Seq<char>,
    after: Seq<Seq<char>>,
)
    ensures
        names_plugin(line) ==> is_ours(before.push(line) + after),
        (forall|i: int| 0 <= i < before.len() ==> !names_plugin(#[trigger] before[i])) ==> !is_ours(
            before,
        ),
{
    let block = before.push(line) + after;
    assert(block[before.len() as int] == line);
}

/// Nothing else opens a binding: the line starts with two brackets, what stands up to the
/// next ones are the two names with a dot between them, and behind those there is nothing
/// or a comment.
pub proof fn law_only_headers(line: Seq<char>)
    requires
        opens_binding(line),
    ensures
        ({
            let cut = split::pieces(line, ']');
            let head = text::trim_start(cut[0]);
            let names = split::pieces(head.skip(2), '.');
            &&& split::join(cut, seq![']']) == line
            &&& cut.len() >= 3 && cut[1].len() == 0
            &&& head.len() >= 2 && head[0] == '[' && head[1] == '['
            &&& names.len() == 2
            &&& writes(text::trimmed(names[0]), "keys"@)
            &&& writes(text::trimmed(names[1]), "command"@)
            &&& text::starts_with_char(text::trim_start(cut[2]), '#') || (cut.len() == 3
                && text::all_white(cut[2]))
        }),
{
    reveal_strlit("\"");
    reveal_strlit("'");
    assert("\""@ =~= seq!['"']);
    assert("'"@ =~= seq!['\'']);
    let cut = split::pieces(line, ']');
    split::law_join_pieces(line, ']');
    text::law_blank(cut[2]);
}

} // verus!
