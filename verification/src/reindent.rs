use vstd::prelude::*;

use crate::decimal::{all_digits, decimal, lemma_decimal_reads_back, signed_decimal};
use crate::helpers::{escape_body, escape_char, indent, nix_string_literal};
use crate::map::{attr_lines, entries_after, nix_attrset_text, null_text};
use crate::seq::{list_lines, nix_list_text};
use crate::serializer::{bool_text, bytes_text, joined_decimals};

verus! {

/// `c`, with a newline followed by one level of indentation.
pub open spec fn reindent_char(c: char) -> Seq<char> {
    if c == '\n' {
        seq!['\n', ' ', ' ']
    } else {
        seq![c]
    }
}

/// `s` indented one level deeper: every newline is followed by two more
/// spaces (`s.replace("\n", "\n  ")`).
pub open spec fn reindent(s: Seq<char>) -> Seq<char>
    decreases s.len(),
{
    if s.len() == 0 {
        Seq::empty()
    } else {
        reindent(s.drop_last()) + reindent_char(s.last())
    }
}

/// `s` holds no newline.
pub open spec fn no_newline(s: Seq<char>) -> bool {
    forall|i: int| 0 <= i < s.len() ==> #[trigger] s[i] != '\n'
}

/// Each rendered item of `deeper` is the matching item of `items`
/// indented one level deeper.
pub open spec fn reindented_items(items: Seq<Seq<char>>, deeper: Seq<Seq<char>>) -> bool {
    &&& deeper.len() == items.len()
    &&& forall|i: int| 0 <= i < items.len() ==> #[trigger] deeper[i] == reindent(items[i])
}

/// A binding `b` has the name of `a`, a name without newlines, and the
/// value of `a` indented one level deeper.
pub open spec fn entry_reindented(a: (Seq<char>, Seq<char>), b: (Seq<char>, Seq<char>)) -> bool {
    &&& no_newline(a.0)
    &&& b.0 == a.0
    &&& b.1 == reindent(a.1)
}

/// Each binding of `deeper` is the matching binding of `entries`
/// indented one level deeper.
pub open spec fn reindented_entries(
    entries: Seq<(Seq<char>, Seq<char>)>,
    deeper: Seq<(Seq<char>, Seq<char>)>,
) -> bool {
    &&& deeper.len() == entries.len()
    &&& forall|i: int|
        0 <= i < entries.len() ==> #[trigger] entry_reindented(entries[i], deeper[i])
}

/// Re-indenting a concatenation re-indents each part.
pub proof fn lemma_reindent_concat(a: Seq<char>, b: Seq<char>)
    ensures
        reindent(a + b) == reindent(a) + reindent(b),
    decreases b.len(),
{
    if b.len() == 0 {
        assert(a + b =~= a);
    } else {
        lemma_reindent_concat(a, b.drop_last());
        assert((a + b).drop_last() =~= a + b.drop_last());
    }
}

/// Text without newlines is left as it is.
pub proof fn lemma_reindent_no_newline(s: Seq<char>)
    requires
        no_newline(s),
    ensures
        reindent(s) == s,
    decreases s.len(),
{
    if s.len() > 0 {
        lemma_reindent_no_newline(s.drop_last());
        assert(s.drop_last().push(s.last()) =~= s);
    }
}

/// Re-indented text without newlines had none to begin with.
pub proof fn lemma_reindent_newline_free(s: Seq<char>)
    requires
        no_newline(reindent(s)),
    ensures
        no_newline(s),
        reindent(s) == s,
    decreases s.len(),
{
    if s.len() > 0 {
        let r = reindent(s);
        let init = reindent(s.drop_last());
        assert(r == init + reindent_char(s.last()));
        assert(r[init.len() as int] == reindent_char(s.last())[0]);
        assert forall|i: int| 0 <= i < init.len() implies #[trigger] init[i] != '\n' by {
            assert(r[i] == init[i]);
        }
        lemma_reindent_newline_free(s.drop_last());
        assert(s.drop_last().push(s.last()) =~= s);
        assert forall|i: int| 0 <= i < s.len() implies #[trigger] s[i] != '\n' by {
            if i < s.len() - 1 {
                assert(s[i] == s.drop_last()[i]);
            }
        }
        lemma_reindent_no_newline(s);
    }
}

proof fn lemma_reindent_one(c: char)
    ensures
        reindent(seq![c]) == reindent_char(c),
{
    let one = seq![c];
    assert(one.drop_last() =~= Seq::<char>::empty());
    assert(reindent(one.drop_last()) == Seq::<char>::empty());
    assert(reindent(one) =~= reindent_char(c));
}

proof fn lemma_reindent_two(a: char, b: char)
    ensures
        reindent(seq![a, b]) == reindent_char(a) + reindent_char(b),
{
    lemma_reindent_concat(seq![a], seq![b]);
    assert(seq![a] + seq![b] =~= seq![a, b]);
    lemma_reindent_one(a);
    lemma_reindent_one(b);
}

proof fn lemma_indent_deeper(level: nat)
    ensures
        indent(level + 1) == seq![' ', ' '] + indent(level),
        indent(level + 1) == indent(level) + seq![' ', ' '],
{
    assert(indent(level + 1) =~= seq![' ', ' '] + indent(level));
    assert(indent(level + 1) =~= indent(level) + seq![' ', ' ']);
}

proof fn lemma_indent_no_newline(level: nat)
    ensures
        no_newline(indent(level)),
{
}

proof fn lemma_list_lines_reindent(items: Seq<Seq<char>>, deeper: Seq<Seq<char>>, pad: Seq<char>)
    requires
        reindented_items(items, deeper),
        no_newline(pad),
    ensures
        seq![' ', ' '] + reindent(list_lines(items, pad)) == list_lines(deeper, seq![' ', ' '] + pad)
            + seq![' ', ' '],
    decreases items.len(),
{
    let two = seq![' ', ' '];
    if items.len() == 0 {
        assert(two + Seq::<char>::empty() =~= Seq::<char>::empty() + two);
    } else {
        let init = items.drop_last();
        let dinit = deeper.drop_last();
        assert(reindented_items(init, dinit)) by {
            assert forall|i: int| 0 <= i < init.len() implies #[trigger] dinit[i] == reindent(
                init[i],
            ) by {
                assert(deeper[i] == reindent(items[i]));
            }
        }
        lemma_list_lines_reindent(init, dinit, pad);
        let head = list_lines(init, pad);
        let line = pad + items.last() + seq!['\n'];
        assert(list_lines(items, pad) == head + line) by {
            assert(head + pad + items.last() + seq!['\n'] =~= head + line);
        }
        lemma_reindent_concat(head, line);
        lemma_reindent_concat(pad + items.last(), seq!['\n']);
        lemma_reindent_concat(pad, items.last());
        lemma_reindent_no_newline(pad);
        lemma_reindent_one('\n');
        assert(deeper.last() == reindent(items.last()));
        assert(reindent(line) =~= pad + deeper.last() + seq!['\n'] + two);
        assert(deeper.drop_last() == dinit);
        assert(list_lines(deeper, two + pad) == list_lines(dinit, two + pad) + (two + pad)
            + deeper.last() + seq!['\n']);
        assert(reindent(list_lines(items, pad)) == reindent(head) + reindent(line));
        assert(two + reindent(list_lines(items, pad)) =~= (two + reindent(head)) + reindent(line));
        assert(two + reindent(list_lines(items, pad)) =~= list_lines(deeper, two + pad) + two);
    }
}

proof fn lemma_attr_lines_reindent(
    entries: Seq<(Seq<char>, Seq<char>)>,
    deeper: Seq<(Seq<char>, Seq<char>)>,
    pad: Seq<char>,
)
    requires
        reindented_entries(entries, deeper),
        no_newline(pad),
    ensures
        seq![' ', ' '] + reindent(attr_lines(entries, pad)) == attr_lines(
            deeper,
            seq![' ', ' '] + pad,
        ) + seq![' ', ' '],
    decreases entries.len(),
{
    let two = seq![' ', ' '];
    if entries.len() == 0 {
        assert(two + Seq::<char>::empty() =~= Seq::<char>::empty() + two);
    } else {
        let init = entries.drop_last();
        let dinit = deeper.drop_last();
        assert forall|i: int| 0 <= i < init.len() implies #[trigger] entry_reindented(
            init[i],
            dinit[i],
        ) by {
            assert(init[i] == entries[i]);
            assert(dinit[i] == deeper[i]);
            assert(entry_reindented(entries[i], deeper[i]));
        }
        assert(reindented_entries(init, dinit));
        lemma_attr_lines_reindent(init, dinit, pad);
        let head = attr_lines(init, pad);
        let (name, value) = entries.last();
        let front = pad + name + seq![' ', '=', ' '];
        let line = front + value + seq![';', '\n'];
        assert(attr_lines(entries, pad) == head + line) by {
            assert(head + pad + name + seq![' ', '=', ' '] + value + seq![';', '\n'] =~= head
                + line);
        }
        assert(entry_reindented(entries[entries.len() - 1], deeper[entries.len() - 1]));
        assert(no_newline(name));
        assert(no_newline(front));
        lemma_reindent_concat(head, line);
        lemma_reindent_concat(front + value, seq![';', '\n']);
        lemma_reindent_concat(front, value);
        lemma_reindent_no_newline(front);
        lemma_reindent_two(';', '\n');
        assert(deeper.last() == deeper[entries.len() - 1]);
        assert(deeper.last().1 == reindent(value));
        assert(deeper.last().0 == name);
        assert(reindent(line) =~= front + deeper.last().1 + seq![';', '\n'] + two);
        assert(deeper.drop_last() == dinit);
        assert(attr_lines(deeper, two + pad) == attr_lines(dinit, two + pad) + (two + pad)
            + deeper.last().0 + seq![' ', '=', ' '] + deeper.last().1 + seq![';', '\n']);
        assert(reindent(attr_lines(entries, pad)) == reindent(head) + reindent(line));
        assert(two + reindent(attr_lines(entries, pad)) =~= (two + reindent(head)) + reindent(
            line,
        ));
        assert(two + reindent(attr_lines(entries, pad)) =~= attr_lines(deeper, two + pad) + two);
    }
}

/// A list rendered one level deeper, from items rendered one level deeper,
/// is the list's text with every newline followed by two more spaces.
pub proof fn lemma_list_reindent(items: Seq<Seq<char>>, deeper: Seq<Seq<char>>, level: nat)
    requires
        reindented_items(items, deeper),
    ensures
        nix_list_text(deeper, level + 1) == reindent(nix_list_text(items, level)),
{
    let two = seq![' ', ' '];
    let open: Seq<char> = seq!['[', ' ', ']'];
    if items.len() == 0 {
        lemma_reindent_no_newline(open);
    } else {
        let lines = list_lines(items, indent(level + 1));
        let start: Seq<char> = seq!['[', '\n'];
        let close = indent(level) + seq![']'];
        assert(nix_list_text(items, level) == start + lines + close);
        lemma_indent_deeper(level);
        lemma_indent_deeper(level + 1);
        lemma_list_lines_reindent(items, deeper, indent(level + 1));
        lemma_reindent_concat(start + lines, close);
        lemma_reindent_concat(start, lines);
        assert(no_newline(close));
        lemma_reindent_no_newline(close);
        lemma_reindent_two('[', '\n');
        assert(nix_list_text(deeper, level + 1) =~= start + list_lines(
            deeper,
            indent(level + 2),
        ) + indent(level + 1) + seq![']']);
        assert(reindent(start) =~= start + two);
        assert(indent(level + 2) == two + indent(level + 1));
        let t = nix_list_text(items, level);
        assert(reindent(t) == reindent(start) + reindent(lines) + close);
        assert(reindent(t) =~= start + (two + reindent(lines)) + close);
        assert(nix_list_text(deeper, level + 1) =~= reindent(nix_list_text(items, level)));
    }
}

/// An attribute set rendered one level deeper, from values rendered one
/// level deeper under the same names (names without newlines), is the
/// set's text with every newline followed by two more spaces.
pub proof fn lemma_attrset_reindent(
    entries: Seq<(Seq<char>, Seq<char>)>,
    deeper: Seq<(Seq<char>, Seq<char>)>,
    level: nat,
)
    requires
        reindented_entries(entries, deeper),
    ensures
        nix_attrset_text(deeper, level + 1) == reindent(nix_attrset_text(entries, level)),
{
    let two = seq![' ', ' '];
    let open: Seq<char> = seq!['{', ' ', '}'];
    if entries.len() == 0 {
        lemma_reindent_no_newline(open);
    } else {
        let lines = attr_lines(entries, indent(level + 1));
        let start: Seq<char> = seq!['{', '\n'];
        let close = indent(level) + seq!['}'];
        assert(nix_attrset_text(entries, level) == start + lines + close);
        lemma_indent_deeper(level);
        lemma_indent_deeper(level + 1);
        lemma_attr_lines_reindent(entries, deeper, indent(level + 1));
        lemma_reindent_concat(start + lines, close);
        lemma_reindent_concat(start, lines);
        assert(no_newline(close));
        lemma_reindent_no_newline(close);
        lemma_reindent_two('{', '\n');
        assert(reindent(start) =~= start + two);
        assert(indent(level + 2) == two + indent(level + 1));
        let t = nix_attrset_text(entries, level);
        assert(reindent(t) == reindent(start) + reindent(lines) + close);
        assert(reindent(t) =~= start + (two + reindent(lines)) + close);
        assert(nix_attrset_text(deeper, level + 1) =~= reindent(nix_attrset_text(entries, level)));
    }
}

/// Adding a binding keeps the re-indentation relation between two
/// collectors: a value is `null` exactly where its deeper rendering is.
pub proof fn lemma_entries_after_reindent(
    entries: Seq<(Seq<char>, Seq<char>)>,
    deeper: Seq<(Seq<char>, Seq<char>)>,
    name: Seq<char>,
    value: Seq<char>,
)
    requires
        reindented_entries(entries, deeper),
        no_newline(name),
    ensures
        reindented_entries(
            entries_after(entries, name, value),
            entries_after(deeper, name, reindent(value)),
        ),
{
    if value == null_text() {
        lemma_reindent_no_newline(null_text());
    } else if reindent(value) == null_text() {
        lemma_reindent_newline_free(value);
    } else {
        let e = entries.push((name, value));
        let d = deeper.push((name, reindent(value)));
        assert forall|i: int| 0 <= i < e.len() implies #[trigger] entry_reindented(e[i], d[i]) by {
            if i < entries.len() {
                assert(e[i] == entries[i]);
                assert(d[i] == deeper[i]);
                assert(entry_reindented(entries[i], deeper[i]));
            }
        }
        assert(reindented_entries(e, d));
    }
}

proof fn lemma_escape_body_no_newline(s: Seq<char>)
    ensures
        no_newline(escape_body(s)),
    decreases s.len(),
{
    if s.len() > 0 {
        lemma_escape_body_no_newline(s.drop_last());
        let a = escape_body(s.drop_last());
        let b = escape_char(s.last());
        assert forall|i: int| 0 <= i < (a + b).len() implies #[trigger] (a + b)[i] != '\n' by {
            if i >= a.len() {
                assert((a + b)[i] == b[i - a.len()]);
            }
        }
    }
}

proof fn lemma_joined_decimals_no_newline(v: Seq<u8>)
    ensures
        no_newline(joined_decimals(v)),
    decreases v.len(),
{
    if v.len() == 1 {
        lemma_decimal_reads_back(v[0] as nat);
        assert(all_digits(decimal(v[0] as nat)));
        let s = decimal(v[0] as nat);
        assert forall|i: int| 0 <= i < s.len() implies #[trigger] s[i] != '\n' by {
            assert('0' <= s[i] <= '9');
        }
    } else if v.len() > 1 {
        lemma_joined_decimals_no_newline(v.drop_last());
        lemma_decimal_reads_back(v.last() as nat);
        let a = joined_decimals(v.drop_last()) + seq![' '];
        let b = decimal(v.last() as nat);
        assert forall|i: int| 0 <= i < (a + b).len() implies #[trigger] (a + b)[i] != '\n' by {
            if i >= a.len() {
                assert((a + b)[i] == b[i - a.len()]);
                assert('0' <= b[i - a.len()] <= '9');
            } else if i < a.len() - 1 {
                assert(a[i] == joined_decimals(v.drop_last())[i]);
            }
        }
    }
}

/// Scalars render the same at every nesting level: their texts hold no
/// newline, so indenting them one level deeper leaves them as they are.
pub proof fn lemma_scalar_texts_reindent(s: Seq<char>, n: nat, i: int, b: bool, bytes: Seq<u8>)
    ensures
        reindent(nix_string_literal(s)) == nix_string_literal(s),
        reindent(decimal(n)) == decimal(n),
        reindent(signed_decimal(i)) == signed_decimal(i),
        reindent(bool_text(b)) == bool_text(b),
        reindent(null_text()) == null_text(),
        reindent(bytes_text(bytes)) == bytes_text(bytes),
{
    lemma_escape_body_no_newline(s);
    let lit = nix_string_literal(s);
    assert forall|k: int| 0 <= k < lit.len() implies #[trigger] lit[k] != '\n' by {
        if 0 < k < lit.len() - 1 {
            assert(lit[k] == escape_body(s)[k - 1]);
        }
    }
    lemma_reindent_no_newline(lit);
    lemma_decimal_reads_back(n);
    let d = decimal(n);
    assert forall|k: int| 0 <= k < d.len() implies #[trigger] d[k] != '\n' by {
        assert('0' <= d[k] <= '9');
    }
    lemma_reindent_no_newline(d);
    if i < 0 {
        lemma_decimal_reads_back((-i) as nat);
        let m = decimal((-i) as nat);
        let sd = signed_decimal(i);
        assert forall|k: int| 0 <= k < sd.len() implies #[trigger] sd[k] != '\n' by {
            if k > 0 {
                assert(sd[k] == m[k - 1]);
                assert('0' <= m[k - 1] <= '9');
            }
        }
        lemma_reindent_no_newline(sd);
    } else {
        lemma_decimal_reads_back(i as nat);
        let sd = signed_decimal(i);
        assert forall|k: int| 0 <= k < sd.len() implies #[trigger] sd[k] != '\n' by {
            assert('0' <= sd[k] <= '9');
        }
        lemma_reindent_no_newline(sd);
    }
    lemma_reindent_no_newline(bool_text(b));
    lemma_reindent_no_newline(null_text());
    lemma_joined_decimals_no_newline(bytes);
    let bt = bytes_text(bytes);
    let j = joined_decimals(bytes);
    assert forall|k: int| 0 <= k < bt.len() implies #[trigger] bt[k] != '\n' by {
        if 2 <= k < bt.len() - 2 {
            assert(bt[k] == j[k - 2]);
        }
    }
    lemma_reindent_no_newline(bt);
}

} // verus!
