use vstd::prelude::*;

verus! {

/// The two characters that stand for `c` inside a Nix double-quoted
/// string, or `c` itself where it needs no escape.
pub open spec fn escape_char(c: char) -> Seq<char> {
    if c == '\\' {
        seq!['\\', '\\']
    } else if c == '"' {
        seq!['\\', '"']
    } else if c == '\n' {
        seq!['\\', 'n']
    } else if c == '\r' {
        seq!['\\', 'r']
    } else if c == '\t' {
        seq!['\\', 't']
    } else if c == '$' {
        seq!['\\', '$']
    } else {
        seq![c]
    }
}

/// The escaped body of a Nix string literal for `s`, quotes excluded.
pub open spec fn escape_body(s: Seq<char>) -> Seq<char>
    decreases s.len(),
{
    if s.len() == 0 {
        Seq::empty()
    } else {
        escape_body(s.drop_last()) + escape_char(s.last())
    }
}

/// The Nix string literal that denotes `s`.
pub open spec fn nix_string_literal(s: Seq<char>) -> Seq<char> {
    seq!['"'] + escape_body(s) + seq!['"']
}

/// The character that a backslash followed by `c` stands for inside a Nix
/// double-quoted string.
pub open spec fn unescape_char(c: char) -> char {
    if c == 'n' {
        '\n'
    } else if c == 'r' {
        '\r'
    } else if c == 't' {
        '\t'
    } else {
        c
    }
}

/// What the body of a Nix double-quoted string denotes, read from the
/// front as Nix reads it; `None` where an unescaped `"` would end the
/// string early, where `${` would start an interpolation, or where a
/// backslash has nothing to escape.
pub open spec fn nix_string_body_value(t: Seq<char>) -> Option<Seq<char>>
    decreases t.len(),
{
    if t.len() == 0 {
        Some(Seq::empty())
    } else if t[0] == '\\' {
        if t.len() < 2 {
            None
        } else {
            match nix_string_body_value(t.skip(2)) {
                Some(rest) => Some(seq![unescape_char(t[1])] + rest),
                None => None,
            }
        }
    } else if t[0] == '"' {
        None
    } else if t[0] == '$' && t.len() >= 2 && t[1] == '{' {
        None
    } else {
        match nix_string_body_value(t.skip(1)) {
            Some(rest) => Some(seq![t[0]] + rest),
            None => None,
        }
    }
}

/// What a Nix double-quoted string literal denotes, if `t` is one.
pub open spec fn nix_string_literal_value(t: Seq<char>) -> Option<Seq<char>> {
    if t.len() >= 2 && t[0] == '"' && t.last() == '"' {
        nix_string_body_value(t.subrange(1, t.len() - 1))
    } else {
        None
    }
}

/// Escaping a concatenation escapes each part.
pub proof fn lemma_escape_body_concat(a: Seq<char>, b: Seq<char>)
    ensures
        escape_body(a + b) == escape_body(a) + escape_body(b),
    decreases b.len(),
{
    if b.len() == 0 {
        assert(a + b =~= a);
    } else {
        lemma_escape_body_concat(a, b.drop_last());
        assert((a + b).drop_last() =~= a + b.drop_last());
    }
}

/// Escaping a nonempty string escapes its first character, then the rest.
pub proof fn lemma_escape_body_front(s: Seq<char>)
    requires
        s.len() > 0,
    ensures
        escape_body(s) == escape_char(s[0]) + escape_body(s.skip(1)),
{
    lemma_escape_body_concat(seq![s[0]], s.skip(1));
    assert(seq![s[0]] + s.skip(1) =~= s);
    let one = seq![s[0]];
    assert(one.drop_last() =~= Seq::<char>::empty());
    assert(escape_body(one.drop_last()) == Seq::<char>::empty());
    assert(escape_body(one) =~= escape_char(s[0]));
}

/// Nix reads back exactly the string that was escaped: the escaped body
/// holds no unescaped `"` and no `${`, and each escape stands for the
/// character it replaced.
pub proof fn lemma_escape_body_reads_back(s: Seq<char>)
    ensures
        nix_string_body_value(escape_body(s)) == Some(s),
    decreases s.len(),
{
    if s.len() == 0 {
    } else {
        lemma_escape_body_front(s);
        lemma_escape_body_reads_back(s.skip(1));
        let c = s[0];
        let t = escape_body(s);
        let rest = escape_body(s.skip(1));
        let e = escape_char(c);
        if e.len() == 2 {
            assert(t.skip(2) =~= rest);
        } else {
            assert(t.skip(1) =~= rest);
        }
        assert(seq![c] + s.skip(1) =~= s);
    }
}

/// The literal that `escape_nix_string` produces denotes, read as Nix
/// reads a double-quoted string, exactly the string it was given: no
/// character of it can end the literal early or start an interpolation.
pub proof fn lemma_escape_nix_string_reads_back(s: Seq<char>)
    ensures
        nix_string_literal_value(nix_string_literal(s)) == Some(s),
{
    let t = nix_string_literal(s);
    lemma_escape_body_reads_back(s);
    assert(t.subrange(1, t.len() - 1) =~= escape_body(s));
}

/// Appends one character to a `String` (`String::push`).
#[verifier::external_body]
pub(crate) fn push_char(s: &mut String, c: char)
    ensures
        final(s)@ == old(s)@.push(c),
{
    s.push(c);
}

/// Two spaces per level of nesting.
pub open spec fn indent(level: nat) -> Seq<char> {
    Seq::new(2 * level, |i: int| ' ')
}

/// The text of a float as Nix reads it, from the float's `Display` text:
/// `.0` is appended where that text has no decimal point.
pub open spec fn nix_float_text(display: Seq<char>) -> Seq<char> {
    if display.contains('.') {
        display
    } else {
        display + seq!['.', '0']
    }
}

/// Float text always carries a decimal point: a `Display` text without a
/// `.` gets exactly `.0` appended, and one with a `.` is kept as it is.
pub proof fn lemma_float_text_has_point(display: Seq<char>)
    ensures
        (forall|i: int| 0 <= i < display.len() ==> display[i] != '.') ==> nix_float_text(display)
            == display + seq!['.', '0'],
        (exists|i: int| 0 <= i < display.len() && display[i] == '.') ==> nix_float_text(display)
            == display,
        exists|i: int|
            0 <= i < nix_float_text(display).len() && #[trigger] nix_float_text(display)[i] == '.',
{
    let t = nix_float_text(display);
    if exists|i: int| 0 <= i < display.len() && display[i] == '.' {
        let i = choose|i: int| 0 <= i < display.len() && display[i] == '.';
        assert(display.contains('.'));
        assert(t[i] == '.');
    } else {
        assert(!display.contains('.'));
        assert(t[display.len() as int] == '.');
    }
}

/// The indentation for `level` levels of nesting: two spaces per level.
pub fn indent_str(level: usize) -> (out: String)
    ensures
        out@ == indent(level as nat),
{
    let mut out = String::new();
    let mut i: usize = 0;
    while i < level
        invariant
            i <= level,
            out@ == indent(i as nat),
        decreases level - i,
    {
        push_char(&mut out, ' ');
        push_char(&mut out, ' ');
        i = i + 1;
        proof {
            assert(out@ =~= indent(i as nat));
        }
    }
    out
}

/// Whether `c` occurs in `s`.
pub fn contains_char(s: &str, c: char) -> (found: bool)
    ensures
        found == s@.contains(c),
{
    let mut found = false;
    for ch in it: s.chars()
        invariant
            it.seq() == s@,
            found == s@.take(it.index()).contains(c),
    {
        proof {
            let prefix = s@.take(it.index() + 1);
            assert(prefix.last() == ch);
            assert(prefix.drop_last() =~= s@.take(it.index()));
            if s@.take(it.index()).contains(c) {
                let k = choose|k: int| 0 <= k < it.index() && s@.take(it.index())[k] == c;
                assert(prefix[k] == c);
            }
            if prefix.contains(c) && ch != c {
                let k = choose|k: int| 0 <= k < prefix.len() && prefix[k] == c;
                assert(s@.take(it.index())[k] == c);
            }
        }
        found = found || ch == c;
    }
    proof {
        assert(s@.take(s@.len() as int) =~= s@);
    }
    found
}

/// Nix float text from the `Display` text of an `f64`: that text stands
/// where it has a decimal point, and gets `.0` appended where it has none
/// (`1` becomes `1.0`).
pub fn format_nix_float(display: &str) -> (out: String)
    ensures
        out@ == nix_float_text(display@),
{
    let mut out = String::new();
    out.append(display);
    if !contains_char(display, '.') {
        push_char(&mut out, '.');
        push_char(&mut out, '0');
    }
    proof {
        assert(out@ =~= nix_float_text(display@));
    }
    out
}

/// Appends the characters of `cs` to `out`, in order.
pub(crate) fn push_all(out: &mut String, cs: &[char])
    ensures
        final(out)@ == old(out)@ + cs@,
{
    let mut i: usize = 0;
    while i < cs.len()
        invariant
            i <= cs.len(),
            out@ == old(out)@ + cs@.take(i as int),
        decreases cs.len() - i,
    {
        push_char(out, cs[i]);
        i = i + 1;
        proof {
            assert(cs@.take(i as int) =~= cs@.take(i - 1).push(cs@[i - 1]));
        }
    }
    proof {
        assert(cs@.take(cs.len() as int) =~= cs@);
    }
}

/// Escapes a string for embedding in Nix: the result is a complete Nix
/// string literal, quotes included, in which backslash, double quote,
/// newline, carriage return, tab and `$` are escaped with a backslash.
pub fn escape_nix_string(s: &str) -> (out: String)
    ensures
        out@ == nix_string_literal(s@),
{
    let mut out = String::new();
    push_char(&mut out, '"');
    for ch in it: s.chars()
        invariant
            it.seq() == s@,
            out@ == seq!['"'] + escape_body(s@.take(it.index())),
    {
        proof {
            assert(s@.take(it.index() + 1).drop_last() =~= s@.take(it.index()));
        }
        if ch == '\\' {
            push_char(&mut out, '\\');
            push_char(&mut out, '\\');
        } else if ch == '"' {
            push_char(&mut out, '\\');
            push_char(&mut out, '"');
        } else if ch == '\n' {
            push_char(&mut out, '\\');
            push_char(&mut out, 'n');
        } else if ch == '\r' {
            push_char(&mut out, '\\');
            push_char(&mut out, 'r');
        } else if ch == '\t' {
            push_char(&mut out, '\\');
            push_char(&mut out, 't');
        } else if ch == '$' {
            push_char(&mut out, '\\');
            push_char(&mut out, '$');
        } else {
            push_char(&mut out, ch);
        }
    }
    push_char(&mut out, '"');
    proof {
        assert(s@.take(s@.len() as int) =~= s@);
    }
    out
}

} // verus!
