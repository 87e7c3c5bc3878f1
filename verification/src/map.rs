use vstd::prelude::*;

use crate::error::Error;
use crate::helpers::{
    escape_body, escape_char, indent, indent_str, lemma_escape_body_concat, lemma_escape_body_front,
    nix_string_literal, push_all, push_char,
};
use crate::serializer::NixSerializer;

verus! {

/// A letter of ASCII or `_`: what a Nix identifier starts with.
pub open spec fn is_ident_start(c: char) -> bool {
    ('A' <= c <= 'Z') || ('a' <= c <= 'z') || c == '_'
}

/// What may follow the first character of a Nix identifier: an ASCII
/// letter or digit, `_`, `'` or `-`.
pub open spec fn is_ident_char(c: char) -> bool {
    is_ident_start(c) || ('0' <= c <= '9') || c == '\'' || c == '-'
}

/// `s` matches `[A-Za-z_][A-Za-z0-9_'-]*`.
pub open spec fn valid_ident(s: Seq<char>) -> bool {
    &&& s.len() > 0
    &&& is_ident_start(s[0])
    &&& forall|i: int| 1 <= i < s.len() ==> is_ident_char(#[trigger] s[i])
}

/// `s` without its leading double quotes.
pub open spec fn trim_start_quotes(s: Seq<char>) -> Seq<char>
    decreases s.len(),
{
    if s.len() > 0 && s[0] == '"' {
        trim_start_quotes(s.drop_first())
    } else {
        s
    }
}

/// `s` without its trailing double quotes.
pub open spec fn trim_end_quotes(s: Seq<char>) -> Seq<char>
    decreases s.len(),
{
    if s.len() > 0 && s.last() == '"' {
        trim_end_quotes(s.drop_last())
    } else {
        s
    }
}

/// `s` without its leading and trailing double quotes
/// (`str::trim_matches('"')`).
pub open spec fn trim_quotes(s: Seq<char>) -> Seq<char> {
    trim_end_quotes(trim_start_quotes(s))
}

proof fn lemma_trim_start_shape(s: Seq<char>) -> (a: int)
    ensures
        0 <= a <= s.len(),
        trim_start_quotes(s) == s.skip(a),
        forall|i: int| 0 <= i < a ==> s[i] == '"',
        a < s.len() ==> s[a] != '"',
    decreases s.len(),
{
    if s.len() > 0 && s[0] == '"' {
        let a1 = lemma_trim_start_shape(s.drop_first());
        assert(s.drop_first().skip(a1) =~= s.skip(a1 + 1));
        assert forall|i: int| 0 <= i < a1 + 1 implies s[i] == '"' by {
            if i > 0 {
                assert(s[i] == s.drop_first()[i - 1]);
            }
        }
        if a1 + 1 < s.len() {
            assert(s[a1 + 1] == s.drop_first()[a1]);
        }
        a1 + 1
    } else {
        assert(s.skip(0) =~= s);
        0
    }
}

proof fn lemma_trim_end_shape(s: Seq<char>) -> (b: int)
    ensures
        0 <= b <= s.len(),
        trim_end_quotes(s) == s.take(b),
        forall|i: int| b <= i < s.len() ==> s[i] == '"',
        b > 0 ==> s[b - 1] != '"',
    decreases s.len(),
{
    if s.len() > 0 && s.last() == '"' {
        let b1 = lemma_trim_end_shape(s.drop_last());
        assert(s.drop_last().take(b1) =~= s.take(b1));
        assert forall|i: int| b1 <= i < s.len() implies s[i] == '"' by {
            if i < s.len() - 1 {
                assert(s[i] == s.drop_last()[i]);
            }
        }
        if b1 > 0 {
            assert(s[b1 - 1] == s.drop_last()[b1 - 1]);
        }
        b1
    } else {
        assert(s.take(s.len() as int) =~= s);
        s.len() as int
    }
}

/// Trimming quotes removes double quotes from the two ends and nothing
/// else: the result is a contiguous piece of the text, everything cut off
/// before and after it is a `"`, and the piece neither starts nor ends
/// with one.
pub proof fn lemma_trim_quotes_shape(s: Seq<char>)
    ensures
        exists|a: int, b: int|
            0 <= a <= b <= s.len() && trim_quotes(s) == s.subrange(a, b) && (forall|i: int|
                0 <= i < a ==> s[i] == '"') && (forall|i: int| b <= i < s.len() ==> s[i] == '"')
                && (a < b ==> s[a] != '"' && s[b - 1] != '"'),
{
    let a = lemma_trim_start_shape(s);
    let t = s.skip(a);
    let b = lemma_trim_end_shape(t);
    assert(t.take(b) =~= s.subrange(a, a + b));
    assert forall|i: int| a + b <= i < s.len() implies s[i] == '"' by {
        assert(s[i] == t[i - a]);
    }
    if b > 0 {
        assert(s[a] == t[0]);
        assert(s[a + b - 1] == t[b - 1]);
        if t[0] == '"' {
            assert(a < s.len());
        }
    }
    assert(trim_quotes(s) == s.subrange(a, a + b));
}

/// The attribute name for a rendered key: the key without its quotes
/// where that is a valid identifier, else the rendered key itself.
pub open spec fn attr_name(rendered_key: Seq<char>) -> Seq<char> {
    if valid_ident(trim_quotes(rendered_key)) {
        trim_quotes(rendered_key)
    } else {
        rendered_key
    }
}

/// The text `null`, which renders `None` and unit.
pub open spec fn null_text() -> Seq<char> {
    seq!['n', 'u', 'l', 'l']
}

/// The texts held by a sequence of pairs of strings.
pub open spec fn entry_texts(v: Seq<(String, String)>) -> Seq<(Seq<char>, Seq<char>)> {
    v.map_values(|e: (String, String)| (e.0@, e.1@))
}

/// The entries after a binding of `name` to the rendered `value`: a
/// binding whose value is `null` is left out.
pub open spec fn entries_after(
    entries: Seq<(Seq<char>, Seq<char>)>,
    name: Seq<char>,
    value: Seq<char>,
) -> Seq<(Seq<char>, Seq<char>)> {
    if value == null_text() {
        entries
    } else {
        entries.push((name, value))
    }
}

/// One line per binding: the padding, `name = value;`, a newline.
pub open spec fn attr_lines(entries: Seq<(Seq<char>, Seq<char>)>, pad: Seq<char>) -> Seq<char>
    decreases entries.len(),
{
    if entries.len() == 0 {
        Seq::empty()
    } else {
        attr_lines(entries.drop_last(), pad) + pad + entries.last().0 + seq![' ', '=', ' ']
            + entries.last().1 + seq![';', '\n']
    }
}

/// `{ }` for no bindings; otherwise `{`, one line per binding indented
/// one level deeper than `level`, and `}` indented at `level`.
pub open spec fn nix_attrset_text(entries: Seq<(Seq<char>, Seq<char>)>, level: nat) -> Seq<char> {
    if entries.len() == 0 {
        seq!['{', ' ', '}']
    } else {
        seq!['{', '\n'] + attr_lines(entries, indent(level + 1)) + indent(level) + seq!['}']
    }
}

/// A character that a Nix string literal holds as itself.
pub open spec fn is_plain_char(c: char) -> bool {
    c != '\\' && c != '"' && c != '\n' && c != '\r' && c != '\t' && c != '$'
}

proof fn lemma_plain_escape_body(s: Seq<char>)
    requires
        forall|i: int| 0 <= i < s.len() ==> is_plain_char(#[trigger] s[i]),
    ensures
        escape_body(s) == s,
    decreases s.len(),
{
    if s.len() > 0 {
        lemma_plain_escape_body(s.drop_last());
        assert(s.drop_last().push(s.last()) =~= s);
    }
}

proof fn lemma_trim_start_quote_then(x: Seq<char>)
    requires
        x.len() > 0,
        x[0] != '"',
    ensures
        trim_start_quotes(seq!['"'] + x) == x,
{
    let s = seq!['"'] + x;
    assert(s[0] == '"');
    assert(s.drop_first() =~= x);
    assert(trim_start_quotes(x) == x);
}

proof fn lemma_trim_end_keeps(s: Seq<char>, j: int)
    requires
        0 <= j < s.len(),
        s[j] != '"',
    ensures
        trim_end_quotes(s).len() > j,
        trim_end_quotes(s).len() <= s.len(),
        trim_end_quotes(s) == s.take(trim_end_quotes(s).len() as int),
    decreases s.len(),
{
    if s.last() == '"' {
        assert(j < s.len() - 1);
        assert(s.drop_last()[j] == s[j]);
        lemma_trim_end_keeps(s.drop_last(), j);
        let t = trim_end_quotes(s.drop_last());
        assert(s.drop_last().take(t.len() as int) =~= s.take(t.len() as int));
    } else {
        assert(s.take(s.len() as int) =~= s);
    }
}

/// A string key is bound under its own name exactly where that name is
/// a Nix identifier; any other string key keeps its quoted, escaped
/// literal as the attribute name.
pub proof fn lemma_string_key_attr_name(k: Seq<char>)
    ensures
        attr_name(nix_string_literal(k)) == (if valid_ident(k) {
            k
        } else {
            nix_string_literal(k)
        }),
{
    let lit = nix_string_literal(k);
    let e = escape_body(k);
    if k.len() == 0 {
        assert(e =~= Seq::<char>::empty());
        let one: Seq<char> = seq!['"'];
        let none: Seq<char> = Seq::empty();
        assert(lit =~= seq!['"', '"']);
        assert(lit[0] == '"');
        assert(lit.drop_first() =~= one);
        assert(one[0] == '"');
        assert(one.drop_first() =~= none);
        assert(trim_start_quotes(none) == none);
        assert(trim_start_quotes(one) == none);
        assert(trim_start_quotes(lit) == none);
        assert(trim_end_quotes(none) == none);
        assert(!valid_ident(trim_quotes(lit)));
    } else if forall|i: int| 0 <= i < k.len() ==> is_plain_char(#[trigger] k[i]) {
        lemma_plain_escape_body(k);
        lemma_trim_start_quote_then(k + seq!['"']);
        assert(lit =~= seq!['"'] + (k + seq!['"']));
        let kq = k + seq!['"'];
        assert(kq.drop_last() =~= k);
        assert(kq.last() == '"');
        assert(trim_start_quotes(lit) == kq);
        assert(is_plain_char(k[k.len() - 1]));
        assert(trim_end_quotes(k) == k);
        assert(trim_end_quotes(kq) == k);
        assert(trim_quotes(lit) == k);
    } else {
        let q = choose|q: int| 0 <= q < k.len() && !is_plain_char(#[trigger] k[q]);
        lemma_escape_body_front(k);
        assert(e[0] == escape_char(k[0])[0]);
        lemma_trim_start_quote_then(e + seq!['"']);
        assert(lit =~= seq!['"'] + (e + seq!['"']));
        assert((e + seq!['"']).drop_last() =~= e);
        let head = escape_body(k.take(q));
        lemma_escape_body_concat(k.take(q), k.skip(q));
        assert(k.take(q) + k.skip(q) =~= k);
        lemma_escape_body_front(k.skip(q));
        let j = head.len() as int;
        assert(e[j] == escape_char(k[q])[0]);
        assert(e[j] == '\\');
        lemma_trim_end_keeps(e, j);
        let t = trim_quotes(lit);
        assert(t == trim_end_quotes(e));
        assert(t[j] == e[j]);
        if j == 0 {
            assert(!is_ident_start(t[0]));
        } else {
            assert(!is_ident_char(t[j]));
        }
    }
}

/// A value that renders as `null` (`None`, unit) adds no binding, so its
/// field or key is left out; any other value adds exactly one binding,
/// after the ones before it.
pub proof fn lemma_null_value_omitted(
    entries: Seq<(Seq<char>, Seq<char>)>,
    name: Seq<char>,
    value: Seq<char>,
)
    ensures
        entries_after(entries, name, seq!['n', 'u', 'l', 'l']) == entries,
        value != seq!['n', 'u', 'l', 'l'] ==> entries_after(entries, name, value) == entries.push(
            (name, value),
        ),
{
    assert(null_text() =~= seq!['n', 'u', 'l', 'l']);
}

/// Whether a key is a Nix identifier, stated character by character: the
/// first character is an ASCII letter or `_`, and every later one is an
/// ASCII letter or digit, `_`, `'` or `-`; any other character, such as
/// `/`, `.` or a space, makes it no identifier.
pub proof fn lemma_valid_ident_chars(s: Seq<char>)
    ensures
        valid_ident(s) <==> (s.len() > 0 && (('A' <= s[0] && s[0] <= 'Z') || ('a' <= s[0] && s[0]
            <= 'z') || s[0] == '_') && forall|i: int|
            1 <= i < s.len() ==> (('A' <= #[trigger] s[i] && s[i] <= 'Z') || ('a' <= s[i] && s[i]
                <= 'z') || ('0' <= s[i] && s[i] <= '9') || s[i] == '_' || s[i] == '\'' || s[i]
                == '-')),
{
}

proof fn lemma_attr_lines_flat(entries: Seq<(Seq<char>, Seq<char>)>, pad: Seq<char>)
    ensures
        attr_lines(entries, pad) == Seq::new(
            entries.len(),
            |i: int| pad + entries[i].0 + seq![' ', '=', ' '] + entries[i].1 + seq![';', '\n'],
        ).flatten(),
    decreases entries.len(),
{
    let lines = Seq::new(
        entries.len(),
        |i: int| pad + entries[i].0 + seq![' ', '=', ' '] + entries[i].1 + seq![';', '\n'],
    );
    if entries.len() == 0 {
        assert(lines =~= Seq::<Seq<char>>::empty());
    } else {
        let init = entries.drop_last();
        lemma_attr_lines_flat(init, pad);
        let init_lines = Seq::new(
            init.len(),
            |i: int| pad + init[i].0 + seq![' ', '=', ' '] + init[i].1 + seq![';', '\n'],
        );
        let last = pad + entries.last().0 + seq![' ', '=', ' '] + entries.last().1 + seq![';', '\n'];
        assert(lines =~= init_lines.push(last));
        init_lines.lemma_flatten_push(last);
        assert(attr_lines(entries, pad) =~= init_lines.flatten() + last);
    }
}

/// An attribute set has exactly one line per binding it is given, in
/// order, whatever the value: `{`, then for each binding two spaces per
/// level below `level`, the name, ` = `, the value and `;` with a newline,
/// then the closing `}` indented at `level`; `{ }` when there are none.
pub proof fn lemma_attrset_has_every_binding(entries: Seq<(Seq<char>, Seq<char>)>, level: nat)
    ensures
        nix_attrset_text(entries, level) == (if entries.len() == 0 {
            seq!['{', ' ', '}']
        } else {
            seq!['{', '\n'] + Seq::new(
                entries.len(),
                |i: int|
                    Seq::new(2 * level + 2, |j: int| ' ') + entries[i].0 + seq![' ', '=', ' ']
                        + entries[i].1 + seq![';', '\n'],
            ).flatten() + Seq::new(2 * level, |j: int| ' ') + seq!['}']
        }),
{
    let pad = Seq::new(2 * level + 2, |j: int| ' ');
    assert(indent(level + 1) =~= pad);
    assert(indent(level) =~= Seq::new(2 * level, |j: int| ' '));
    lemma_attr_lines_flat(entries, pad);
}

/// The bindings a map collector holds after `serialize_map`, then
/// `serialize_key(keys[i])` and `serialize_value(values[i])` for each `i`
/// in turn: each step is the one that those two calls' contracts state.
pub open spec fn collected_bindings(keys: Seq<Seq<char>>, values: Seq<Seq<char>>) -> Seq<
    (Seq<char>, Seq<char>),
>
    decreases keys.len(),
{
    if keys.len() == 0 || values.len() == 0 {
        Seq::empty()
    } else {
        entries_after(
            collected_bindings(keys.drop_last(), values.drop_last()),
            attr_name(keys.last()),
            values.last(),
        )
    }
}

/// Each rendered key, as an attribute name, with its rendered value, in
/// call order.
pub open spec fn binding_pairs(keys: Seq<Seq<char>>, values: Seq<Seq<char>>) -> Seq<
    (Seq<char>, Seq<char>),
> {
    Seq::new(keys.len(), |i: int| (attr_name(keys[i]), values[i]))
}

/// A binding whose value is not `null`.
pub open spec fn non_null_binding() -> spec_fn((Seq<char>, Seq<char>)) -> bool {
    |e: (Seq<char>, Seq<char>)| e.1 != null_text()
}

/// After `serialize_map`, `n` calls of `serialize_key` and
/// `serialize_value` and `end`, the text is the attribute set of the
/// bindings whose value is not `null`, under their attribute names, in
/// call order.
pub proof fn lemma_map_collector(keys: Seq<Seq<char>>, values: Seq<Seq<char>>, level: nat)
    requires
        keys.len() == values.len(),
    ensures
        collected_bindings(keys, values) == binding_pairs(keys, values).filter(non_null_binding()),
        nix_attrset_text(collected_bindings(keys, values), level) == nix_attrset_text(
            binding_pairs(keys, values).filter(non_null_binding()),
            level,
        ),
    decreases keys.len(),
{
    reveal(Seq::filter);
    let pairs = binding_pairs(keys, values);
    if keys.len() == 0 {
        assert(pairs =~= Seq::<(Seq<char>, Seq<char>)>::empty());
    } else {
        lemma_map_collector(keys.drop_last(), values.drop_last(), level);
        assert(pairs.drop_last() =~= binding_pairs(keys.drop_last(), values.drop_last()));
        assert(pairs.last() == (attr_name(keys.last()), values.last()));
    }
}

/// One more key and value extend the collected bindings as
/// `serialize_key` and `serialize_value` state.
pub proof fn lemma_collected_bindings_step(
    keys: Seq<Seq<char>>,
    values: Seq<Seq<char>>,
    key: Seq<char>,
    value: Seq<char>,
)
    requires
        keys.len() == values.len(),
    ensures
        collected_bindings(keys.push(key), values.push(value)) == entries_after(
            collected_bindings(keys, values),
            attr_name(key),
            value,
        ),
{
    assert(keys.push(key).drop_last() =~= keys);
    assert(values.push(value).drop_last() =~= values);
}

/// The text `null` as a `String`.
pub fn null_string() -> (s: String)
    ensures
        s@ == null_text(),
{
    let mut s = String::new();
    push_all(&mut s, &['n', 'u', 'l', 'l']);
    proof {
        assert(s@ =~= null_text());
    }
    s
}

/// Whether `s` is a Nix identifier, `[A-Za-z_][A-Za-z0-9_'-]*`.
pub fn is_valid_ident(s: &str) -> (valid: bool)
    ensures
        valid == valid_ident(s@),
{
    let mut valid = false;
    let mut first = true;
    for c in it: s.chars()
        invariant
            it.seq() == s@,
            first == (it.index() == 0),
            valid == (it.index() > 0 && valid_ident(s@.take(it.index()))),
            !first ==> valid || !valid_ident(s@),
    {
        let prefix = Ghost(s@.take(it.index() + 1));
        proof {
            assert(prefix@.drop_last() =~= s@.take(it.index()));
            assert(prefix@.last() == c);
        }
        if first {
            valid = ('A' <= c && c <= 'Z') || ('a' <= c && c <= 'z') || c == '_';
            first = false;
            proof {
                if !valid {
                    assert(s@[0] == c);
                }
            }
        } else {
            let ok = ('A' <= c && c <= 'Z') || ('a' <= c && c <= 'z') || c == '_' || ('0' <= c
                && c <= '9') || c == '\'' || c == '-';
            proof {
                if valid && ok {
                    assert forall|i: int| 1 <= i < prefix@.len() implies is_ident_char(
                        #[trigger] prefix@[i],
                    ) by {
                        if i < prefix@.len() - 1 {
                            assert(prefix@[i] == s@.take(it.index())[i]);
                        }
                    }
                }
                if !ok {
                    assert(s@[it.index() as int] == c);
                }
                if !valid {
                    assert(!valid_ident(s@.take(it.index())));
                    if valid_ident(prefix@) {
                        assert forall|i: int|
                            1 <= i < s@.take(it.index()).len() implies is_ident_char(
                            #[trigger] s@.take(it.index())[i],
                        ) by {
                            assert(prefix@[i] == s@.take(it.index())[i]);
                        }
                    }
                }
            }
            valid = valid && ok;
        }
    }
    proof {
        assert(s@.take(s@.len() as int) =~= s@);
    }
    valid
}

/// The characters of `s`, in order.
pub(crate) fn chars_of(s: &str) -> (v: Vec<char>)
    ensures
        v@ == s@,
{
    let mut v: Vec<char> = Vec::new();
    for c in it: s.chars()
        invariant
            it.seq() == s@,
            v@ == s@.take(it.index()),
    {
        v.push(c);
        proof {
            assert(v@ =~= s@.take(it.index() + 1));
        }
    }
    proof {
        assert(s@.take(s@.len() as int) =~= s@);
    }
    v
}

/// `s` without its leading and trailing double quotes, as
/// `s.trim_matches('"')` gives it.
pub fn trim_quotes_str(s: &str) -> (out: String)
    ensures
        out@ == trim_quotes(s@),
{
    let v = chars_of(s);
    let n = v.len();
    let mut i: usize = 0;
    assert(s@.skip(0) =~= s@);
    while i < n && v[i] == '"'
        invariant
            v@ == s@,
            n == v.len(),
            i <= n,
            trim_start_quotes(s@) == trim_start_quotes(s@.skip(i as int)),
        decreases n - i,
    {
        proof {
            assert(s@.skip(i as int).drop_first() =~= s@.skip(i + 1));
        }
        i = i + 1;
    }
    let ghost t = s@.skip(i as int);
    assert(trim_start_quotes(s@) == t);
    let mut j: usize = n;
    assert(t.take(n - i) =~= t);
    while j > i && v[j - 1] == '"'
        invariant
            v@ == s@,
            n == v.len(),
            i <= j <= n,
            t == s@.skip(i as int),
            trim_end_quotes(t) == trim_end_quotes(t.take(j - i)),
        decreases j,
    {
        proof {
            assert(t.take(j - i).last() == v@[j - 1]);
            assert(t.take(j - i).drop_last() =~= t.take(j - 1 - i));
        }
        j = j - 1;
    }
    let mut out = String::new();
    let mut k: usize = i;
    while k < j
        invariant
            v@ == s@,
            n == v.len(),
            i <= k <= j <= n,
            out@ == s@.subrange(i as int, k as int),
        decreases j - k,
    {
        push_char(&mut out, v[k]);
        k = k + 1;
        proof {
            assert(out@ =~= s@.subrange(i as int, k as int));
        }
    }
    proof {
        assert(t.take(j - i) =~= s@.subrange(i as int, j as int));
    }
    out
}

/// Formats already rendered bindings as a Nix attribute set at nesting
/// level `indent`.
pub fn format_attrset(entries: Vec<(String, String)>, indent: usize) -> (r: Result<String, Error>)
    requires
        entries.len() > 0 ==> indent < usize::MAX,
    ensures
        r matches Ok(s) && s@ == nix_attrset_text(entry_texts(entries@), indent as nat),
{
    if entries.len() == 0 {
        let mut out = String::new();
        push_all(&mut out, &['{', ' ', '}']);
        proof {
            assert(out@ =~= seq!['{', ' ', '}']);
        }
        return Ok(out);
    }
    let inner_indent = indent_str(indent + 1);
    let outer_indent = indent_str(indent);
    let ghost all = entry_texts(entries@);
    let mut out = String::new();
    push_char(&mut out, '{');
    push_char(&mut out, '\n');
    for i in 0..entries.len()
        invariant
            all == entry_texts(entries@),
            inner_indent@ == crate::helpers::indent((indent + 1) as nat),
            out@ == seq!['{', '\n'] + attr_lines(all.take(i as int), inner_indent@),
    {
        let (key, val) = &entries[i];
        out.append(inner_indent.as_str());
        out.append(key.as_str());
        push_all(&mut out, &[' ', '=', ' ']);
        out.append(val.as_str());
        push_char(&mut out, ';');
        push_char(&mut out, '\n');
        proof {
            let next = all.take(i + 1);
            assert(next.drop_last() =~= all.take(i as int));
            assert(next.last() == (entries@[i as int].0@, entries@[i as int].1@));
            assert(out@ =~= seq!['{', '\n'] + attr_lines(next, inner_indent@));
        }
    }
    out.append(outer_indent.as_str());
    push_char(&mut out, '}');
    proof {
        assert(all.take(entries.len() as int) =~= all);
        assert(out@ =~= nix_attrset_text(all, indent as nat));
    }
    Ok(out)
}

/// Collects the bindings of a map at nesting level `indent`; a key waits
/// in `current_key` for its value.
pub struct NixMapSerializer {
    pub entries: Vec<(String, String)>,
    pub current_key: Option<String>,
    pub indent: usize,
}

impl NixMapSerializer {
    /// The serializer for a key or a value: one level deeper.
    pub fn entry_serializer(&self) -> (s: NixSerializer)
        requires
            self.indent < usize::MAX,
        ensures
            s.indent == self.indent + 1,
    {
        NixSerializer { indent: self.indent + 1 }
    }

    /// Takes a key, given as `entry_serializer` rendered it: its quotes
    /// are stripped where what remains is a valid identifier.
    pub fn serialize_key(&mut self, rendered_key: String) -> (r: Result<(), Error>)
        ensures
            r is Ok,
            final(self).current_key matches Some(k) && k@ == attr_name(rendered_key@),
            final(self).entries@ == old(self).entries@,
            final(self).indent == old(self).indent,
    {
        let stripped = trim_quotes_str(rendered_key.as_str());
        if is_valid_ident(stripped.as_str()) {
            self.current_key = Some(stripped);
        } else {
            self.current_key = Some(rendered_key);
        }
        Ok(())
    }

    /// Takes the value for the waiting key, given as `entry_serializer`
    /// rendered it; a `null` value (from `None`) adds no binding.
    pub fn serialize_value(&mut self, rendered_value: String) -> (r: Result<(), Error>)
        requires
            old(self).current_key is Some,
        ensures
            r is Ok,
            final(self).current_key is None,
            entry_texts(final(self).entries@) == entries_after(
                entry_texts(old(self).entries@),
                old(self).current_key->0@,
                rendered_value@,
            ),
            final(self).indent == old(self).indent,
    {
        let key = self.current_key.take().unwrap();
        let null = null_string();
        if !(rendered_value == null) {
            self.entries.push((key, rendered_value));
            proof {
                assert(entry_texts(self.entries@) =~= entry_texts(old(self).entries@).push(
                    (key@, rendered_value@),
                ));
            }
        }
        Ok(())
    }

    /// The Nix attribute set of the bindings taken so far.
    pub fn end(self) -> (r: Result<String, Error>)
        requires
            self.entries.len() > 0 ==> self.indent < usize::MAX,
        ensures
            r matches Ok(s) && s@ == nix_attrset_text(entry_texts(self.entries@), self.indent as nat),
    {
        format_attrset(self.entries, self.indent)
    }
}

} // verus!
