use vstd::prelude::*;

use crate::error::{ron_error_display, Error};
use crate::helpers::{push_all, push_char};
use crate::map::{chars_of, nix_attrset_text};
use crate::seq::nix_list_text;

verus! {

/// A value as `ron` parses it.
#[verifier::external_type_specification]
#[verifier::external_body]
pub struct ExRonValue(ron::Value);

/// Whether `ron::from_str::<ron::Value>` accepts the text as RON.
pub uninterp spec fn ron_accepts(input: Seq<char>) -> bool;

/// The value that `ron::from_str::<ron::Value>` parses from an accepted
/// text; it depends on the text alone.
pub uninterp spec fn ron_parsed(input: Seq<char>) -> ron::Value;

/// The `Display` text of the error that `ron::from_str::<ron::Value>`
/// reports for a rejected text; it depends on the text alone.
pub uninterp spec fn ron_rejection(input: Seq<char>) -> Seq<char>;

/// Parses RON text into a `ron::Value` (`ron::from_str`). It succeeds
/// exactly on the texts that `ron` accepts (`ron_accepts`), with the value
/// that `ron_parsed` names; otherwise its error displays as the text that
/// `ron_rejection` names.
#[verifier::external_body]
fn ron_from_str(input: &str) -> (r: Result<ron::Value, ron::error::SpannedError>)
    ensures
        r is Ok <==> ron_accepts(input@),
        r matches Ok(v) ==> v == ron_parsed(input@),
        r matches Err(e) ==> ron_error_display(e) == ron_rejection(input@),
{
    ron::from_str(input)
}

/// Parses RON text into `ron`'s value of it; input that `ron` rejects
/// gives `Error::RonParse` carrying `ron`'s error for that text.
pub fn parse_ron(input: &str) -> (r: Result<ron::Value, Error>)
    ensures
        r is Ok <==> ron_accepts(input@),
        r matches Ok(v) ==> v == ron_parsed(input@),
        r is Err ==> r->Err_0 is RonParse,
        r matches Err(Error::RonParse(e)) ==> ron_error_display(e) == ron_rejection(input@),
{
    match ron_from_str(input) {
        Ok(v) => Ok(v),
        Err(e) => Err(Error::RonParse(e)),
    }
}

/// A NixOS module that sets `attr_path` to the Nix text `inner`:
/// `_: {`, the binding on a line of its own indented one level, and `}`,
/// each line ending in a newline.
pub open spec fn module_text(attr_path: Seq<char>, inner: Seq<char>) -> Seq<char> {
    seq!['_', ':', ' ', '{', '\n', ' ', ' '] + attr_path + seq![' ', '=', ' '] + inner + seq![
        ';',
        '\n',
        '}',
        '\n',
    ]
}

/// Wraps Nix text, rendered at nesting level 1, in a NixOS module under
/// `attr_path`.
pub fn format_module(inner: &str, attr_path: &str) -> (out: String)
    ensures
        out@ == module_text(attr_path@, inner@),
{
    let mut out = String::new();
    push_all(&mut out, &['_', ':', ' ', '{', '\n', ' ', ' ']);
    out.append(attr_path);
    push_all(&mut out, &[' ', '=', ' ']);
    out.append(inner);
    push_all(&mut out, &[';', '\n', '}', '\n']);
    proof {
        assert(out@ =~= module_text(attr_path@, inner@));
    }
    out
}

/// `s` ending in a newline: `s` itself where it ends in one, else `s`
/// with one appended.
pub open spec fn with_trailing_newline(s: Seq<char>) -> Seq<char> {
    if s.len() > 0 && s.last() == '\n' {
        s
    } else {
        s.push('\n')
    }
}

/// Makes the text end in a newline, as Unix tools expect.
pub fn ensure_trailing_newline(s: String) -> (out: String)
    ensures
        out@ == with_trailing_newline(s@),
{
    let cs = chars_of(s.as_str());
    if cs.len() > 0 && cs[cs.len() - 1] == '\n' {
        s
    } else {
        let mut out = s;
        push_char(&mut out, '\n');
        out
    }
}

/// The module holds, in order: `_: {`, a newline, two spaces, the
/// attribute path unchanged, ` = `, the inner text unchanged, `;`, a
/// newline, `}` and a newline.
pub proof fn lemma_module_layout(attr_path: Seq<char>, inner: Seq<char>)
    ensures
        module_text(attr_path, inner).len() == attr_path.len() + inner.len() + 14,
        module_text(attr_path, inner).take(7) == seq!['_', ':', ' ', '{', '\n', ' ', ' '],
        module_text(attr_path, inner).subrange(7, 7 + attr_path.len() as int) == attr_path,
        module_text(attr_path, inner).subrange(
            7 + attr_path.len() as int,
            10 + attr_path.len() as int,
        ) == seq![' ', '=', ' '],
        module_text(attr_path, inner).subrange(
            10 + attr_path.len() as int,
            10 + attr_path.len() as int + inner.len() as int,
        ) == inner,
        module_text(attr_path, inner).skip(10 + attr_path.len() as int + inner.len() as int)
            == seq![';', '\n', '}', '\n'],
{
    let m = module_text(attr_path, inner);
    let a = attr_path.len() as int;
    let b = inner.len() as int;
    assert(m.take(7) =~= seq!['_', ':', ' ', '{', '\n', ' ', ' ']);
    assert(m.subrange(7, 7 + a) =~= attr_path);
    assert(m.subrange(7 + a, 10 + a) =~= seq![' ', '=', ' ']);
    assert(m.subrange(10 + a, 10 + a + b) =~= inner);
    assert(m.skip(10 + a + b) =~= seq![';', '\n', '}', '\n']);
}

/// `s` ends in two newlines.
pub open spec fn ends_in_blank_line(s: Seq<char>) -> bool {
    s.len() >= 2 && s[s.len() - 1] == '\n' && s[s.len() - 2] == '\n'
}

/// The output of the command ends in exactly one newline: the Nix texts
/// it is made from end in `]`, `}` or a module's `}` and newline, never in
/// two newlines, and adding the trailing newline keeps it that way.
pub proof fn lemma_output_ends_in_one_newline(
    attr_path: Seq<char>,
    items: Seq<Seq<char>>,
    entries: Seq<(Seq<char>, Seq<char>)>,
    level: nat,
    s: Seq<char>,
)
    ensures
        !ends_in_blank_line(module_text(attr_path, s)),
        nix_list_text(items, level).last() == ']',
        nix_attrset_text(entries, level).last() == '}',
        !ends_in_blank_line(s) ==> with_trailing_newline(s).last() == '\n' && !ends_in_blank_line(
            with_trailing_newline(s),
        ),
        with_trailing_newline(s).len() <= s.len() + 1,
        with_trailing_newline(s).take(s.len() as int) == s,
        with_trailing_newline(s).last() == '\n',
        s.len() > 0 && s.last() == '\n' ==> with_trailing_newline(s) == s,
{
    assert(s.push('\n').take(s.len() as int) =~= s);
    assert(s.take(s.len() as int) =~= s);
    let m = module_text(attr_path, s);
    assert(m[m.len() - 2] == '}');
}

} // verus!
