use vstd::prelude::*;

use crate::error::Error;
use crate::map::{entries_after, entry_texts, format_attrset, nix_attrset_text, null_string};
use crate::serializer::NixSerializer;

verus! {

/// Collects the fields of a struct (or struct variant) at nesting level
/// `indent`.
pub struct NixStructSerializer {
    pub entries: Vec<(String, String)>,
    pub indent: usize,
}

impl NixStructSerializer {
    /// The serializer for a field's value: one level deeper.
    pub fn field_serializer(&self) -> (s: NixSerializer)
        requires
            self.indent < usize::MAX,
        ensures
            s.indent == self.indent + 1,
    {
        NixSerializer { indent: self.indent + 1 }
    }

    /// Takes a field, its value given as `field_serializer` rendered it;
    /// a `null` value (from `None`) adds no binding, so the field is left
    /// out.
    pub fn serialize_field(&mut self, key: &str, rendered_value: String) -> (r: Result<(), Error>)
        ensures
            r is Ok,
            entry_texts(final(self).entries@) == entries_after(
                entry_texts(old(self).entries@),
                key@,
                rendered_value@,
            ),
            final(self).indent == old(self).indent,
    {
        let null = null_string();
        if !(rendered_value == null) {
            let name = key.to_owned();
            self.entries.push((name, rendered_value));
            proof {
                assert(entry_texts(self.entries@) =~= entry_texts(old(self).entries@).push(
                    (key@, rendered_value@),
                ));
            }
        }
        Ok(())
    }

    /// The Nix attribute set of the fields taken so far.
    pub fn end(self) -> (r: Result<String, Error>)
        requires
            self.entries.len() > 0 ==> self.indent < usize::MAX,
        ensures
            r matches Ok(s) && s@ == nix_attrset_text(entry_texts(self.entries@), self.indent as nat),
    {
        format_attrset(self.entries, self.indent)
    }
}

} // verus!
