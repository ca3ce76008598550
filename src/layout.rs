//! Aligned, word-wrapped display of one tool's name and summary.
use vstd::prelude::*;
use crate::text::{split_words, views_of, words_of};

verus! {

/// Width of the column that holds the tool names.
pub const LABEL_WIDTH: usize = 20;

/// Width assumed when the terminal's own cannot be learned.
pub const DEFAULT_WIDTH: usize = 80;

/// A run of `n` spaces.
pub open spec fn spaces(n: nat) -> Seq<char> {
    Seq::new(n, |i: int| ' ')
}

/// Words joined by single spaces.
pub open spec fn join_words(g: Seq<Seq<char>>) -> Seq<char>
    decreases g.len(),
{
    if g.len() == 0 {
        Seq::empty()
    } else if g.len() == 1 {
        g[0]
    } else {
        join_words(g.drop_last()) + seq![' '] + g.last()
    }
}

/// Greedy packing of words into lines of at most `max` characters: the
/// lines completed so far and the words of the line being filled. A word
/// goes on the current line when it fits there after one space, and
/// otherwise starts a new line.
pub open spec fn pack(ws: Seq<Seq<char>>, max: nat) -> (Seq<Seq<Seq<char>>>, Seq<Seq<char>>)
    decreases ws.len(),
{
    if ws.len() == 0 {
        (Seq::empty(), Seq::empty())
    } else {
        let (done, cur) = pack(ws.drop_last(), max);
        let w = ws.last();
        if cur.len() == 0 {
            (done, seq![w])
        } else if join_words(cur).len() + 1 + w.len() > max {
            (done.push(cur), seq![w])
        } else {
            (done, cur.push(w))
        }
    }
}

/// The words of each wrapped line.
pub open spec fn wrap_groups(ws: Seq<Seq<char>>, max: nat) -> Seq<Seq<Seq<char>>> {
    let (done, cur) = pack(ws, max);
    if cur.len() == 0 {
        done
    } else {
        done.push(cur)
    }
}

/// The text of each wrapped line.
pub open spec fn wrap_lines(ws: Seq<Seq<char>>, max: nat) -> Seq<Seq<char>> {
    wrap_groups(ws, max).map_values(|g: Seq<Seq<char>>| join_words(g))
}

/// Lines joined by a line break and `indent` spaces.
pub open spec fn render_lines(lines: Seq<Seq<char>>, indent: nat) -> Seq<char>
    decreases lines.len(),
{
    if lines.len() == 0 {
        Seq::empty()
    } else if lines.len() == 1 {
        lines[0]
    } else {
        render_lines(lines.drop_last(), indent) + seq!['\n'] + spaces(indent) + lines.last()
    }
}

/// The wrapped block of a sequence of words.
pub open spec fn wrapped(ws: Seq<Seq<char>>, indent: nat, max: nat) -> Seq<char> {
    render_lines(wrap_lines(ws, max), indent)
}

fn spaces_string(n: usize) -> (r: String)
    ensures
        r@ == spaces(n as nat),
{
    let mut r = String::new();
    let mut i: usize = 0;
    while i < n
        invariant
            i <= n,
            r@ == spaces(i as nat),
        decreases n - i,
    {
        proof {
            reveal_strlit(" ");
        }
        r.append(" ");
        i = i + 1;
        assert(r@ =~= spaces(i as nat));
    }
    r
}

proof fn lemma_render_push(lines: Seq<Seq<char>>, l: Seq<char>, indent: nat)
    ensures
        render_lines(lines.push(l), indent) == if lines.len() == 0 {
            l
        } else {
            render_lines(lines, indent) + seq!['\n'] + spaces(indent) + l
        },
{
    assert(lines.push(l).drop_last() =~= lines);
}

/// Wraps words greedily into lines of at most `max_width` characters and
/// joins the lines with a line break followed by `indent` spaces.
pub fn wrap_words(words: &Vec<String>, indent: usize, max_width: usize) -> (r: String)
    ensures
        r@ == wrapped(views_of(words@), indent as nat, max_width as nat),
{
    proof {
        reveal_strlit(" ");
        reveal_strlit("\n");
    }
    let ghost ws = views_of(words@);
    let pad = spaces_string(indent);
    let mut result = String::new();
    let mut line = String::new();
    let mut width: usize = 0;
    let mut started = false;
    let mut any_done = false;
    let mut i: usize = 0;
    while i < words.len()
        invariant
            i <= words@.len(),
            ws == views_of(words@),
            pad@ == spaces(indent as nat),
            result@ == render_lines(
                pack(ws.take(i as int), max_width as nat).0.map_values(
                    |g: Seq<Seq<char>>| join_words(g),
                ),
                indent as nat,
            ),
            any_done == (pack(ws.take(i as int), max_width as nat).0.len() > 0),
            started == (pack(ws.take(i as int), max_width as nat).1.len() > 0),
            line@ == join_words(pack(ws.take(i as int), max_width as nat).1),
            width == line@.len(),
        decreases words@.len() - i,
    {
        proof {
            reveal_strlit(" ");
            reveal_strlit("\n");
        }
        let ghost (done, cur) = pack(ws.take(i as int), max_width as nat);
        let ghost f = |g: Seq<Seq<char>>| join_words(g);
        assert(ws.take(i + 1).drop_last() =~= ws.take(i as int));
        assert(ws.take(i + 1).last() == words@[i as int]@);
        let w = &words[i];
        let len = w.as_str().unicode_len();
        if !started {
            line = w.clone();
            width = len;
            started = true;
            assert(join_words(seq![ws[i as int]]) == ws[i as int]);
        } else if len >= max_width || width >= max_width - len {
            if any_done {
                result.append("\n");
                result.append(pad.as_str());
            }
            result.append(line.as_str());
            proof {
                lemma_render_push(done.map_values(f), join_words(cur), indent as nat);
                assert(done.push(cur).map_values(f) =~= done.map_values(f).push(join_words(cur)));
                assert(join_words(seq![ws[i as int]]) == ws[i as int]);
            }
            any_done = true;
            line = w.clone();
            width = len;
        } else {
            line.append(" ");
            line.append(w.as_str());
            width = width + 1 + len;
            proof {
                let c2 = cur.push(ws[i as int]);
                assert(c2.drop_last() =~= cur);
            }
        }
        i = i + 1;
    }
    assert(ws.take(words@.len() as int) =~= ws);
    let ghost (done, cur) = pack(ws, max_width as nat);
    let ghost f = |g: Seq<Seq<char>>| join_words(g);
    if started {
        if any_done {
            result.append("\n");
            result.append(pad.as_str());
        }
        result.append(line.as_str());
        proof {
            lemma_render_push(done.map_values(f), join_words(cur), indent as nat);
            assert(done.push(cur).map_values(f) =~= done.map_values(f).push(join_words(cur)));
        }
    }
    result
}

proof fn lemma_pack_keeps_words(ws: Seq<Seq<char>>, max: nat)
    ensures
        pack(ws, max).0.flatten() + pack(ws, max).1 == ws,
        ws.len() > 0 ==> pack(ws, max).1.len() > 0,
    decreases ws.len(),
{
    broadcast use Seq::lemma_flatten_push;

    if ws.len() > 0 {
        let (done, cur) = pack(ws.drop_last(), max);
        lemma_pack_keeps_words(ws.drop_last(), max);
        let w = ws.last();
        assert(ws =~= ws.drop_last().push(w));
    }
}

/// Wrapping neither drops, reorders nor splits a word: the words of the
/// wrapped lines, read in order, are exactly the words wrapped.
pub proof fn lemma_wrap_keeps_words(ws: Seq<Seq<char>>, max: nat)
    ensures
        wrap_groups(ws, max).flatten() == ws,
{
    broadcast use Seq::lemma_flatten_push;

    lemma_pack_keeps_words(ws, max);
    let (done, cur) = pack(ws, max);
    if cur.len() == 0 {
        assert(done.flatten() + cur =~= done.flatten());
    }
}

proof fn lemma_pack_fits(ws: Seq<Seq<char>>, max: nat)
    requires
        forall|k: int| 0 <= k < ws.len() ==> #[trigger] ws[k].len() <= max,
    ensures
        forall|j: int|
            0 <= j < pack(ws, max).0.len() ==> (#[trigger] pack(ws, max).0[j]).len() > 0
                && join_words(pack(ws, max).0[j]).len() <= max,
        pack(ws, max).1.len() > 0 ==> join_words(pack(ws, max).1).len() <= max,
    decreases ws.len(),
{
    if ws.len() > 0 {
        let (done, cur) = pack(ws.drop_last(), max);
        assert forall|k: int| 0 <= k < ws.drop_last().len() implies #[trigger] ws.drop_last()[k].len()
            <= max by {
            assert(ws.drop_last()[k] == ws[k]);
        }
        lemma_pack_fits(ws.drop_last(), max);
        let w = ws.last();
        assert(w.len() <= max);
        assert(join_words(seq![w]) == w);
        if cur.len() > 0 {
            assert(cur.push(w).drop_last() =~= cur);
        }
    }
}

/// Where no word is longer than `max` characters, every wrapped line holds
/// at least one word and is at most `max` characters long.
pub proof fn lemma_wrap_fits(ws: Seq<Seq<char>>, max: nat)
    requires
        forall|k: int| 0 <= k < ws.len() ==> #[trigger] ws[k].len() <= max,
    ensures
        forall|j: int|
            0 <= j < wrap_groups(ws, max).len() ==> (#[trigger] wrap_groups(ws, max)[j]).len() > 0
                && wrap_lines(ws, max)[j].len() <= max,
{
    lemma_pack_fits(ws, max);
}

/// Splits a text into words at whitespace and wraps them greedily into
/// lines of at most `max_width` characters; lines after the first are
/// preceded by `indent` spaces.
pub fn wrap_text_with_indent(text: &str, indent: usize, max_width: usize) -> (r: String)
    ensures
        r@ == wrapped(words_of(text@), indent as nat, max_width as nat),
{
    let words = split_words(text);
    wrap_words(&words, indent, max_width)
}

/// A text as ansi_term displays it in bold: the bold code before it and
/// the reset code after it.
pub open spec fn bold_of(s: Seq<char>) -> Seq<char> {
    seq!['\u{1b}', '[', '1', 'm'] + s + seq!['\u{1b}', '[', '0', 'm']
}

/// Relies on ansi_term's `Style::new().bold().paint(..)`, displayed: the
/// prefix `ESC [ 1 m`, the text, then the reset suffix `ESC [ 0 m`.
#[verifier::external_body]
fn bold(s: &str) -> (r: String)
    ensures
        r@ == bold_of(s@),
{
    ansi_term::Style::new().bold().paint(s).to_string()
}

/// A name padded on the right with spaces to the label column's width.
pub open spec fn padded_name(name: Seq<char>) -> Seq<char> {
    if name.len() < LABEL_WIDTH {
        name + spaces((LABEL_WIDTH - name.len()) as nat)
    } else {
        name
    }
}

/// The display block of one tool: its bold name in the label column and
/// its summary wrapped to the rest of the width. A name that fills the
/// label column stands on a line of its own.
pub open spec fn entry_block(name: Seq<char>, summary: Seq<char>, width: nat) -> Seq<char> {
    let body = wrapped(words_of(summary), LABEL_WIDTH as nat, (width - LABEL_WIDTH) as nat);
    if name.len() >= LABEL_WIDTH {
        bold_of(name) + seq!['\n'] + spaces(LABEL_WIDTH as nat) + body
    } else {
        bold_of(padded_name(name)) + body
    }
}

/// The terminal width to lay out for: the one learned, else the default.
pub fn resolve_width(queried: Option<usize>) -> (r: usize)
    ensures
        r == match queried {
            Some(w) => w,
            None => DEFAULT_WIDTH,
        },
{
    match queried {
        Some(w) => w,
        None => DEFAULT_WIDTH,
    }
}

/// Lays out one tool's name and summary for a terminal `width` columns wide.
pub fn format_entry(name: &str, summary: &str, width: usize) -> (r: String)
    requires
        width >= LABEL_WIDTH,
    ensures
        r@ == entry_block(name@, summary@, width as nat),
{
    proof {
        reveal_strlit("\n");
    }
    let body = wrap_text_with_indent(summary, LABEL_WIDTH, width - LABEL_WIDTH);
    let len = name.unicode_len();
    let mut r;
    if len >= LABEL_WIDTH {
        r = bold(name);
        r.append("\n");
        let pad = spaces_string(LABEL_WIDTH);
        r.append(pad.as_str());
    } else {
        let mut label = String::from_str(name);
        let pad = spaces_string(LABEL_WIDTH - len);
        label.append(pad.as_str());
        r = bold(label.as_str());
    }
    r.append(body.as_str());
    r
}

} // verus!
