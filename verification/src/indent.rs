//! Lines of a text, and indentation line by line.

use crate::text::join;
use vstd::prelude::*;

verus! {

/// Whether `t` holds no newline character.
pub open spec fn newline_free(t: Seq<char>) -> bool {
    forall|i: int| 0 <= i < t.len() ==> t[i] != '\n'
}

/// The lines of `t`: the pieces that its newline characters separate. There
/// is always at least one line, and a text that ends in a newline has an
/// empty last line.
pub open spec fn lines(t: Seq<char>) -> Seq<Seq<char>>
    decreases t.len(),
{
    if t.len() == 0 {
        seq![Seq::empty()]
    } else {
        let before = lines(t.drop_last());
        if t.last() == '\n' {
            before.push(Seq::empty())
        } else {
            before.drop_last().push(before.last().push(t.last()))
        }
    }
}

/// One line of indented text: the prefix, the line, and a newline.
pub open spec fn indent_line(line: Seq<char>, prefix: Seq<char>) -> Seq<char> {
    prefix + line + seq!['\n']
}

/// `t` with `prefix` put before each of its lines and a newline after each,
/// the last one included.
pub open spec fn indent(t: Seq<char>, prefix: Seq<char>) -> Seq<char> {
    lines(t).map_values(|line: Seq<char>| indent_line(line, prefix)).flatten()
}

/// Appends `text` to `out`, one tab before each of its lines and a newline
/// after each.
pub fn push_indented(text: &str, out: &mut String)
    ensures
        final(out)@ == old(out)@ + indent(text@, seq!['\t']),
{
    let ghost start = out@;
    let ghost tab = seq!['\t'];
    out.push('\t');
    proof {
        lemma_indent_empty(tab);
        assert(text@.take(0) =~= Seq::empty());
        assert(out@.push('\n') =~= start + indent(text@.take(0), tab));
    }
    // Up to here `out` holds the indented text of what was read, but for the
    // newline that closes its last line.
    for c in it: text.chars()
        invariant
            it.seq() == text@,
            tab == seq!['\t'],
            out@.push('\n') == start + indent(text@.take(it.index()), tab),
    {
        proof {
            let seen = text@.take(it.index());
            let so_far = indent(seen, tab);
            assert(text@.take(it.index() + 1) =~= seen.push(c));
            lemma_indent_push(seen, c, tab);
            if c == '\n' {
                assert(out@.push('\n').push('\t').push('\n') =~= start + (so_far + tab.push(
                    '\n',
                )));
            } else {
                assert(out@ =~= out@.push('\n').drop_last());
                assert((start + so_far).drop_last() =~= start + so_far.drop_last());
                assert(out@.push(c).push('\n') =~= start + so_far.drop_last().push(c).push('\n'));
            }
        }
        if c == '\n' {
            out.push('\n');
            out.push('\t');
        } else {
            out.push(c);
        }
    }
    proof {
        assert(text@.take(text@.len() as int) =~= text@);
    }
    out.push('\n');
}

/// Every text has at least one line.
pub proof fn lemma_lines_nonempty(t: Seq<char>)
    ensures
        lines(t).len() >= 1,
    decreases t.len(),
{
    if t.len() > 0 {
        lemma_lines_nonempty(t.drop_last());
    }
}

/// No line holds a newline.
pub proof fn lemma_lines_newline_free(t: Seq<char>)
    ensures
        forall|i: int| 0 <= i < lines(t).len() ==> newline_free(#[trigger] lines(t)[i]),
    decreases t.len(),
{
    if t.len() > 0 {
        lemma_lines_newline_free(t.drop_last());
        lemma_lines_nonempty(t.drop_last());
    }
}

/// The lines of a text, with a newline between each two, make up the text.
pub proof fn lemma_join_lines(t: Seq<char>)
    ensures
        join(lines(t), seq!['\n']) == t,
    decreases t.len(),
{
    let nl = seq!['\n'];
    if t.len() == 0 {
        assert(join(lines(t), nl) =~= t);
    } else {
        let before = lines(t.drop_last());
        lemma_join_lines(t.drop_last());
        lemma_lines_nonempty(t.drop_last());
        if t.last() == '\n' {
            let now = before.push(Seq::empty());
            assert(now.drop_last() =~= before);
            assert(join(now, nl) =~= t.drop_last() + nl + Seq::empty());
            assert(t.drop_last() + nl + Seq::empty() =~= t);
        } else {
            let now = before.drop_last().push(before.last().push(t.last()));
            assert(now.drop_last() =~= before.drop_last());
            assert(join(now, nl) =~= join(before, nl).push(t.last()));
            assert(t.drop_last().push(t.last()) =~= t);
        }
    }
}

/// A text without a newline is its own single line.
pub proof fn lemma_lines_single(t: Seq<char>)
    requires
        newline_free(t),
    ensures
        lines(t) == seq![t],
    decreases t.len(),
{
    if t.len() == 0 {
        assert(t =~= Seq::empty());
    } else {
        lemma_lines_single(t.drop_last());
        assert(t[t.len() - 1] != '\n');
        let before = seq![t.drop_last()];
        assert(before.drop_last() =~= Seq::<Seq<char>>::empty());
        assert(before.last().push(t.last()) =~= t);
        assert(lines(t) =~= seq![t]);
    }
}

/// A newline and a text without one, appended to any text, add that text as
/// one more line.
pub proof fn lemma_lines_append_line(t: Seq<char>, line: Seq<char>)
    requires
        newline_free(line),
    ensures
        lines(t + seq!['\n'] + line) == lines(t).push(line),
    decreases line.len(),
{
    let whole = t + seq!['\n'] + line;
    if line.len() == 0 {
        assert(whole.drop_last() =~= t);
        assert(line =~= Seq::empty());
    } else {
        lemma_lines_append_line(t, line.drop_last());
        assert(whole.drop_last() =~= t + seq!['\n'] + line.drop_last());
        assert(line.drop_last().push(line.last()) =~= line);
        assert(lines(t).push(line.drop_last()).drop_last() =~= lines(t));
    }
}

/// Texts without newlines, joined by newlines, are the lines of what comes
/// out. Together with [`lemma_join_lines`] and [`lemma_lines_newline_free`]
/// this says that `lines` splits a text at its newlines and nowhere else.
pub proof fn lemma_lines_of_join(parts: Seq<Seq<char>>)
    requires
        parts.len() >= 1,
        forall|i: int| 0 <= i < parts.len() ==> newline_free(#[trigger] parts[i]),
    ensures
        lines(join(parts, seq!['\n'])) == parts,
    decreases parts.len(),
{
    if parts.len() == 1 {
        lemma_lines_single(parts[0]);
        assert(seq![parts[0]] =~= parts);
    } else {
        lemma_lines_of_join(parts.drop_last());
        lemma_lines_append_line(join(parts.drop_last(), seq!['\n']), parts.last());
        assert(parts.drop_last().push(parts.last()) =~= parts);
    }
}

/// Indenting the empty text gives one line that holds the prefix alone.
pub proof fn lemma_indent_empty(prefix: Seq<char>)
    ensures
        indent(Seq::empty(), prefix) == prefix.push('\n'),
{
    let one = seq![Seq::<char>::empty()];
    let mapped = one.map_values(|line: Seq<char>| indent_line(line, prefix));
    assert(lines(Seq::empty()) == one);
    assert(mapped =~= seq![indent_line(Seq::empty(), prefix)]);
    mapped.lemma_flatten_one_element();
    assert(indent_line(Seq::empty(), prefix) =~= prefix.push('\n'));
}

/// How the indented text grows when one character is appended to the text:
/// a newline opens a fresh line, which so far holds the prefix alone; any
/// other character goes before the closing newline of the last line.
pub proof fn lemma_indent_push(t: Seq<char>, c: char, prefix: Seq<char>)
    ensures
        indent(t, prefix).len() > 0,
        indent(t, prefix).last() == '\n',
        c == '\n' ==> indent(t.push(c), prefix) == indent(t, prefix) + prefix.push('\n'),
        c != '\n' ==> indent(t.push(c), prefix) == indent(t, prefix).drop_last().push(c).push(
            '\n',
        ),
{
    broadcast use Seq::lemma_flatten_push;

    let f = |line: Seq<char>| indent_line(line, prefix);
    let before = lines(t);
    lemma_lines_nonempty(t);
    assert(t.push(c).drop_last() =~= t);
    assert(before =~= before.drop_last().push(before.last()));
    assert(before.map_values(f) =~= before.drop_last().map_values(f).push(f(before.last())));
    let head = before.drop_last().map_values(f).flatten();
    assert(indent(t, prefix) =~= head + f(before.last()));
    if c == '\n' {
        assert(lines(t.push(c)) == before.push(Seq::empty()));
        assert(before.push(Seq::empty()).map_values(f) =~= before.map_values(f).push(
            f(Seq::empty()),
        ));
        assert(f(Seq::empty()) =~= prefix.push('\n'));
    } else {
        let grown = before.last().push(c);
        assert(lines(t.push(c)) == before.drop_last().push(grown));
        assert(before.drop_last().push(grown).map_values(f) =~= before.drop_last().map_values(
            f,
        ).push(f(grown)));
        assert(head + f(grown) =~= (head + f(before.last())).drop_last().push(c).push('\n'));
    }
}

/// Indenting a text of one line puts the prefix before it and a newline
/// after it.
pub proof fn lemma_indent_single_line(t: Seq<char>, prefix: Seq<char>)
    requires
        newline_free(t),
    ensures
        indent(t, prefix) == prefix + t + seq!['\n'],
{
    lemma_lines_single(t);
    let mapped = lines(t).map_values(|line: Seq<char>| indent_line(line, prefix));
    assert(mapped =~= seq![indent_line(t, prefix)]);
    mapped.lemma_flatten_one_element();
}

/// Indentation works line by line: what stands before a newline and what
/// stands after it are indented each by itself.
pub proof fn lemma_indent_concat(a: Seq<char>, b: Seq<char>, prefix: Seq<char>)
    ensures
        indent(a + seq!['\n'] + b, prefix) == indent(a, prefix) + indent(b, prefix),
    decreases b.len(),
{
    let whole = a + seq!['\n'] + b;
    if b.len() == 0 {
        assert(whole =~= a.push('\n'));
        assert(b =~= Seq::empty());
        lemma_indent_push(a, '\n', prefix);
        lemma_indent_empty(prefix);
    } else {
        let c = b.last();
        let shorter = a + seq!['\n'] + b.drop_last();
        lemma_indent_concat(a, b.drop_last(), prefix);
        assert(whole =~= shorter.push(c));
        assert(b =~= b.drop_last().push(c));
        lemma_indent_push(shorter, c, prefix);
        lemma_indent_push(b.drop_last(), c, prefix);
        let left = indent(a, prefix);
        let right = indent(b.drop_last(), prefix);
        if c != '\n' {
            assert((left + right).drop_last() =~= left + right.drop_last());
        }
        assert(indent(whole, prefix) =~= left + indent(b, prefix));
    }
}

/// Indenting a text that was indented before puts the new prefix before the
/// old one on every line. Here the indented text is followed by `rest`,
/// which begins a line of its own.
pub proof fn lemma_indent_nested(
    t: Seq<char>,
    inner: Seq<char>,
    rest: Seq<char>,
    outer: Seq<char>,
)
    requires
        newline_free(inner),
    ensures
        indent(indent(t, inner) + rest, outer) == indent(t, outer + inner) + indent(rest, outer),
    decreases t.len(),
{
    let nl = seq!['\n'];
    let both = outer + inner;
    if t.len() == 0 {
        assert(t =~= Seq::empty());
        lemma_indent_empty(inner);
        lemma_indent_empty(both);
        assert(indent(t, inner) + rest =~= inner + nl + rest);
        lemma_indent_concat(inner, rest, outer);
        lemma_indent_single_line(inner, outer);
        assert(outer + inner + nl =~= both.push('\n'));
    } else {
        let c = t.last();
        let shorter = t.drop_last();
        let once = indent(shorter, inner);
        assert(t =~= shorter.push(c));
        lemma_indent_push(shorter, c, inner);
        lemma_indent_push(shorter, c, both);
        if c == '\n' {
            // The fresh line holds `inner` alone, and `rest` follows it.
            assert(indent(t, inner) + rest =~= (once + inner) + nl + rest);
            lemma_indent_concat(once + inner, rest, outer);
            lemma_indent_nested(shorter, inner, inner, outer);
            lemma_indent_single_line(inner, outer);
            assert(outer + inner + nl =~= both.push('\n'));
        } else {
            // The character joins the last line, before its closing newline.
            let open = once.drop_last();
            assert(once =~= open.push('\n'));
            assert(indent(t, inner) + rest =~= open.push(c) + nl + rest);
            lemma_indent_concat(open.push(c), rest, outer);
            lemma_indent_push(open, c, outer);
            lemma_indent_push(open, '\n', outer);
            lemma_indent_nested(shorter, inner, Seq::empty(), outer);
            lemma_indent_empty(outer);
            assert(once + Seq::<char>::empty() =~= open.push('\n'));
            // Both end in the line that the closing newline of `once` opens.
            let twice = indent(open, outer);
            let want = indent(shorter, both);
            let line = outer.push('\n');
            assert(twice + line == want + line);
            assert(twice =~= want) by {
                assert(twice.len() == want.len());
                assert forall|i: int| 0 <= i < twice.len() implies twice[i] == want[i] by {
                    assert((twice + line)[i] == (want + line)[i]);
                }
            }
        }
        assert(indent(indent(t, inner) + rest, outer) =~= indent(t, both) + indent(rest, outer));
    }
}

} // verus!
