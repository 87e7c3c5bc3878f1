use vstd::prelude::*;

use crate::error::Error;
use crate::helpers::{indent, indent_str, push_all, push_char};
use crate::serializer::NixSerializer;

verus! {

/// The texts held by a sequence of strings.
pub open spec fn texts(v: Seq<String>) -> Seq<Seq<char>> {
    v.map_values(|s: String| s@)
}

/// One line per item: the padding, the item, a newline.
pub open spec fn list_lines(items: Seq<Seq<char>>, pad: Seq<char>) -> Seq<char>
    decreases items.len(),
{
    if items.len() == 0 {
        Seq::empty()
    } else {
        list_lines(items.drop_last(), pad) + pad + items.last() + seq!['\n']
    }
}

/// `[ ]` for no items; otherwise `[`, one line per item indented one
/// level deeper than `level`, and `]` indented at `level`.
pub open spec fn nix_list_text(items: Seq<Seq<char>>, level: nat) -> Seq<char> {
    if items.len() == 0 {
        seq!['[', ' ', ']']
    } else {
        seq!['[', '\n'] + list_lines(items, indent(level + 1)) + indent(level) + seq![']']
    }
}

proof fn lemma_list_lines_flat(items: Seq<Seq<char>>, pad: Seq<char>)
    ensures
        list_lines(items, pad) == Seq::new(items.len(), |i: int| pad + items[i] + seq!['\n']).flatten(),
    decreases items.len(),
{
    let lines = Seq::new(items.len(), |i: int| pad + items[i] + seq!['\n']);
    if items.len() == 0 {
        assert(lines =~= Seq::<Seq<char>>::empty());
    } else {
        let init = items.drop_last();
        lemma_list_lines_flat(init, pad);
        let init_lines = Seq::new(init.len(), |i: int| pad + init[i] + seq!['\n']);
        assert(lines =~= init_lines.push(pad + items.last() + seq!['\n']));
        init_lines.lemma_flatten_push(pad + items.last() + seq!['\n']);
        assert(list_lines(items, pad) =~= init_lines.flatten() + (pad + items.last() + seq!['\n']));
    }
}

/// A list has exactly one line per item, in order, whatever the item:
/// `[`, then for each item two spaces per level below `level`, the item
/// and a newline, then the closing `]` indented at `level`; `[ ]` when
/// there are no items.
pub proof fn lemma_list_has_every_item(items: Seq<Seq<char>>, level: nat)
    ensures
        nix_list_text(items, level) == (if items.len() == 0 {
            seq!['[', ' ', ']']
        } else {
            seq!['[', '\n'] + Seq::new(
                items.len(),
                |i: int| Seq::new(2 * level + 2, |j: int| ' ') + items[i] + seq!['\n'],
            ).flatten() + Seq::new(2 * level, |j: int| ' ') + seq![']']
        }),
{
    let pad = Seq::new(2 * level + 2, |j: int| ' ');
    assert(indent(level + 1) =~= pad);
    assert(indent(level) =~= Seq::new(2 * level, |j: int| ' '));
    lemma_list_lines_flat(items, pad);
}

/// Formats already rendered items as a Nix list at nesting level `indent`.
pub fn format_seq(items: Vec<String>, indent: usize) -> (r: Result<String, Error>)
    requires
        items.len() > 0 ==> indent < usize::MAX,
    ensures
        r matches Ok(s) && s@ == nix_list_text(texts(items@), indent as nat),
{
    if items.len() == 0 {
        let mut out = String::new();
        push_all(&mut out, &['[', ' ', ']']);
        proof {
            assert(out@ =~= seq!['[', ' ', ']']);
        }
        return Ok(out);
    }
    let inner_indent = indent_str(indent + 1);
    let outer_indent = indent_str(indent);
    let ghost all = texts(items@);
    let mut out = String::new();
    push_char(&mut out, '[');
    push_char(&mut out, '\n');
    for i in 0..items.len()
        invariant
            all == texts(items@),
            inner_indent@ == crate::helpers::indent((indent + 1) as nat),
            out@ == seq!['[', '\n'] + list_lines(all.take(i as int), inner_indent@),
    {
        out.append(inner_indent.as_str());
        out.append(items[i].as_str());
        push_char(&mut out, '\n');
        proof {
            let next = all.take(i + 1);
            assert(next.drop_last() =~= all.take(i as int));
            assert(next.last() == items@[i as int]@);
            assert(out@ =~= seq!['[', '\n'] + list_lines(next, inner_indent@));
        }
    }
    out.append(outer_indent.as_str());
    push_char(&mut out, ']');
    proof {
        assert(all.take(items.len() as int) =~= all);
        assert(out@ =~= nix_list_text(all, indent as nat));
    }
    Ok(out)
}

/// Collects the rendered elements of a list (also of a tuple, a tuple
/// struct and a tuple variant) at nesting level `indent`.
pub struct NixSeqSerializer {
    pub items: Vec<String>,
    pub indent: usize,
}

impl NixSeqSerializer {
    /// The serializer for an element: one level deeper.
    pub fn element_serializer(&self) -> (s: NixSerializer)
        requires
            self.indent < usize::MAX,
        ensures
            s.indent == self.indent + 1,
    {
        NixSerializer { indent: self.indent + 1 }
    }

    /// Adds an element, given as `element_serializer` rendered it.
    pub fn serialize_element(&mut self, rendered: String) -> (r: Result<(), Error>)
        ensures
            r is Ok,
            final(self).items@ == old(self).items@.push(rendered),
            final(self).indent == old(self).indent,
    {
        self.items.push(rendered);
        Ok(())
    }

    /// Adds a field of a tuple struct or tuple variant: as an element.
    pub fn serialize_field(&mut self, rendered: String) -> (r: Result<(), Error>)
        ensures
            r is Ok,
            final(self).items@ == old(self).items@.push(rendered),
            final(self).indent == old(self).indent,
    {
        self.serialize_element(rendered)
    }

    /// The Nix list of the elements added so far.
    pub fn end(self) -> (r: Result<String, Error>)
        requires
            self.items.len() > 0 ==> self.indent < usize::MAX,
        ensures
            r matches Ok(s) && s@ == nix_list_text(texts(self.items@), self.indent as nat),
    {
        format_seq(self.items, self.indent)
    }
}

} // verus!
