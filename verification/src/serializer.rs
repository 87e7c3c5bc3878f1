use vstd::prelude::*;

use crate::decimal::{decimal, decimal_i64, decimal_u64, signed_decimal};
use crate::error::Error;
use crate::helpers::{escape_nix_string, nix_string_literal, push_all, push_char};
use crate::map::{null_string, null_text, NixMapSerializer};
use crate::seq::NixSeqSerializer;
use crate::structs::NixStructSerializer;

verus! {

/// The text `true` or `false`.
pub open spec fn bool_text(v: bool) -> Seq<char> {
    if v {
        seq!['t', 'r', 'u', 'e']
    } else {
        seq!['f', 'a', 'l', 's', 'e']
    }
}

/// The decimal numerals of the bytes, separated by single spaces.
pub open spec fn joined_decimals(v: Seq<u8>) -> Seq<char>
    decreases v.len(),
{
    if v.len() == 0 {
        Seq::empty()
    } else if v.len() == 1 {
        decimal(v[0] as nat)
    } else {
        joined_decimals(v.drop_last()) + seq![' '] + decimal(v.last() as nat)
    }
}

/// Bytes as a Nix list of integers on one line: `[ 1 2 3 ]`
/// (`[  ]` for no bytes).
pub open spec fn bytes_text(v: Seq<u8>) -> Seq<char> {
    seq!['[', ' '] + joined_decimals(v) + seq![' ', ']']
}

proof fn lemma_joined_decimals_flat(v: Seq<u8>)
    ensures
        joined_decimals(v) == Seq::new(
            v.len(),
            |i: int|
                if i == 0 {
                    decimal(v[i] as nat)
                } else {
                    seq![' '] + decimal(v[i] as nat)
                },
        ).flatten(),
    decreases v.len(),
{
    let parts = Seq::new(
        v.len(),
        |i: int|
            if i == 0 {
                decimal(v[i] as nat)
            } else {
                seq![' '] + decimal(v[i] as nat)
            },
    );
    if v.len() == 0 {
        assert(parts =~= Seq::<Seq<char>>::empty());
    } else {
        let init = v.drop_last();
        lemma_joined_decimals_flat(init);
        let init_parts = Seq::new(
            init.len(),
            |i: int|
                if i == 0 {
                    decimal(init[i] as nat)
                } else {
                    seq![' '] + decimal(init[i] as nat)
                },
        );
        assert(parts =~= init_parts.push(parts.last()));
        init_parts.lemma_flatten_push(parts.last());
        if v.len() == 1 {
            assert(init_parts =~= Seq::<Seq<char>>::empty());
            assert(init_parts.flatten() =~= Seq::<char>::empty());
            assert(joined_decimals(v) =~= init_parts.flatten() + parts.last());
        } else {
            assert(joined_decimals(v) =~= init_parts.flatten() + parts.last());
        }
    }
}

/// Booleans render as Nix's keywords `true` and `false`.
pub proof fn lemma_bool_keywords(b: bool)
    ensures
        bool_text(true) == seq!['t', 'r', 'u', 'e'],
        bool_text(false) == seq!['f', 'a', 'l', 's', 'e'],
        b ==> bool_text(b) != bool_text(!b),
{
    assert(seq!['t', 'r', 'u', 'e'][0] != seq!['f', 'a', 'l', 's', 'e'][0]);
}

/// Bytes give one decimal numeral per byte, in order, whatever its value
/// (zero included), separated by single spaces, between `[ ` and ` ]`.
pub proof fn lemma_bytes_have_every_byte(v: Seq<u8>)
    ensures
        bytes_text(v) == seq!['[', ' '] + Seq::new(
            v.len(),
            |i: int|
                if i == 0 {
                    decimal(v[i] as nat)
                } else {
                    seq![' '] + decimal(v[i] as nat)
                },
        ).flatten() + seq![' ', ']'],
{
    lemma_joined_decimals_flat(v);
}

/// Renders values of serde's data model as Nix text at nesting level
/// `indent`. A compound value is collected by the serializer that the
/// matching `serialize_*` method returns; the parts of that value are
/// rendered by the child serializer it hands out, one level deeper.
pub struct NixSerializer {
    pub indent: usize,
}

impl NixSerializer {
    /// `true` or `false`.
    pub fn serialize_bool(self, v: bool) -> (r: Result<String, Error>)
        ensures
            r matches Ok(s) && s@ == bool_text(v),
    {
        let mut out = String::new();
        if v {
            push_all(&mut out, &['t', 'r', 'u', 'e']);
        } else {
            push_all(&mut out, &['f', 'a', 'l', 's', 'e']);
        }
        proof {
            assert(out@ =~= bool_text(v));
        }
        Ok(out)
    }

    /// A signed integer in decimal.
    pub fn serialize_i8(self, v: i8) -> (r: Result<String, Error>)
        ensures
            r matches Ok(s) && s@ == signed_decimal(v as int),
    {
        Ok(decimal_i64(v as i64))
    }

    /// A signed integer in decimal.
    pub fn serialize_i16(self, v: i16) -> (r: Result<String, Error>)
        ensures
            r matches Ok(s) && s@ == signed_decimal(v as int),
    {
        Ok(decimal_i64(v as i64))
    }

    /// A signed integer in decimal.
    pub fn serialize_i32(self, v: i32) -> (r: Result<String, Error>)
        ensures
            r matches Ok(s) && s@ == signed_decimal(v as int),
    {
        Ok(decimal_i64(v as i64))
    }

    /// A signed integer in decimal.
    pub fn serialize_i64(self, v: i64) -> (r: Result<String, Error>)
        ensures
            r matches Ok(s) && s@ == signed_decimal(v as int),
    {
        Ok(decimal_i64(v))
    }

    /// An unsigned integer in decimal.
    pub fn serialize_u8(self, v: u8) -> (r: Result<String, Error>)
        ensures
            r matches Ok(s) && s@ == decimal(v as nat),
    {
        Ok(decimal_u64(v as u64))
    }

    /// An unsigned integer in decimal.
    pub fn serialize_u16(self, v: u16) -> (r: Result<String, Error>)
        ensures
            r matches Ok(s) && s@ == decimal(v as nat),
    {
        Ok(decimal_u64(v as u64))
    }

    /// An unsigned integer in decimal.
    pub fn serialize_u32(self, v: u32) -> (r: Result<String, Error>)
        ensures
            r matches Ok(s) && s@ == decimal(v as nat),
    {
        Ok(decimal_u64(v as u64))
    }

    /// An unsigned integer in decimal.
    pub fn serialize_u64(self, v: u64) -> (r: Result<String, Error>)
        ensures
            r matches Ok(s) && s@ == decimal(v as nat),
    {
        Ok(decimal_u64(v))
    }

    /// A character as a one-character Nix string literal.
    pub fn serialize_char(self, v: char) -> (r: Result<String, Error>)
        ensures
            r matches Ok(s) && s@ == nix_string_literal(seq![v]),
    {
        let mut one = String::new();
        push_char(&mut one, v);
        proof {
            assert(one@ =~= seq![v]);
        }
        Ok(escape_nix_string(one.as_str()))
    }

    /// A string as an escaped Nix string literal.
    pub fn serialize_str(self, v: &str) -> (r: Result<String, Error>)
        ensures
            r matches Ok(s) && s@ == nix_string_literal(v@),
    {
        Ok(escape_nix_string(v))
    }

    /// Bytes as a one-line Nix list of their decimal values.
    pub fn serialize_bytes(self, v: &[u8]) -> (r: Result<String, Error>)
        ensures
            r matches Ok(s) && s@ == bytes_text(v@),
    {
        let mut out = String::new();
        push_char(&mut out, '[');
        push_char(&mut out, ' ');
        let mut i: usize = 0;
        while i < v.len()
            invariant
                i <= v.len(),
                out@ == seq!['[', ' '] + joined_decimals(v@.take(i as int)),
            decreases v.len() - i,
        {
            let ghost before = v@.take(i as int);
            if i > 0 {
                push_char(&mut out, ' ');
            }
            let digits = decimal_u64(v[i] as u64);
            out.append(digits.as_str());
            i = i + 1;
            proof {
                let now = v@.take(i as int);
                assert(now.drop_last() =~= before);
                assert(now.last() == v@[i - 1]);
                if i == 1 {
                    assert(before =~= Seq::<u8>::empty());
                }
                assert(out@ =~= seq!['[', ' '] + joined_decimals(now));
            }
        }
        push_char(&mut out, ' ');
        push_char(&mut out, ']');
        proof {
            assert(v@.take(v.len() as int) =~= v@);
            assert(out@ =~= bytes_text(v@));
        }
        Ok(out)
    }

    /// `None` as `null`.
    pub fn serialize_none(self) -> (r: Result<String, Error>)
        ensures
            r matches Ok(s) && s@ == null_text(),
    {
        Ok(null_string())
    }

    /// Unit as `null`.
    pub fn serialize_unit(self) -> (r: Result<String, Error>)
        ensures
            r matches Ok(s) && s@ == null_text(),
    {
        Ok(null_string())
    }

    /// A unit struct as `null`.
    pub fn serialize_unit_struct(self, _name: &str) -> (r: Result<String, Error>)
        ensures
            r matches Ok(s) && s@ == null_text(),
    {
        Ok(null_string())
    }

    /// A unit variant as the Nix string literal of its name.
    pub fn serialize_unit_variant(self, _name: &str, _variant_index: u32, variant: &str) -> (r:
        Result<String, Error>)
        ensures
            r matches Ok(s) && s@ == nix_string_literal(variant@),
    {
        Ok(escape_nix_string(variant))
    }

    /// Starts a list at this level.
    pub fn serialize_seq(self, len: Option<usize>) -> (r: Result<NixSeqSerializer, Error>)
        ensures
            r matches Ok(s) && s.items@.len() == 0 && s.indent == self.indent,
    {
        Ok(NixSeqSerializer { items: Vec::with_capacity(len.unwrap_or(0)), indent: self.indent })
    }

    /// Starts a tuple: as a list.
    pub fn serialize_tuple(self, len: usize) -> (r: Result<NixSeqSerializer, Error>)
        ensures
            r matches Ok(s) && s.items@.len() == 0 && s.indent == self.indent,
    {
        self.serialize_seq(Some(len))
    }

    /// Starts a tuple struct: as a list.
    pub fn serialize_tuple_struct(self, _name: &str, len: usize) -> (r: Result<
        NixSeqSerializer,
        Error,
    >)
        ensures
            r matches Ok(s) && s.items@.len() == 0 && s.indent == self.indent,
    {
        self.serialize_seq(Some(len))
    }

    /// Starts a tuple variant: as a list; the variant's name is dropped.
    pub fn serialize_tuple_variant(
        self,
        _name: &str,
        _variant_index: u32,
        _variant: &str,
        len: usize,
    ) -> (r: Result<NixSeqSerializer, Error>)
        ensures
            r matches Ok(s) && s.items@.len() == 0 && s.indent == self.indent,
    {
        self.serialize_seq(Some(len))
    }

    /// Starts a map: as an attribute set.
    pub fn serialize_map(self, _len: Option<usize>) -> (r: Result<NixMapSerializer, Error>)
        ensures
            r matches Ok(m) && m.entries@.len() == 0 && m.current_key is None && m.indent
                == self.indent,
    {
        Ok(NixMapSerializer { entries: Vec::new(), current_key: None, indent: self.indent })
    }

    /// Starts a struct: as an attribute set.
    pub fn serialize_struct(self, _name: &str, _len: usize) -> (r: Result<
        NixStructSerializer,
        Error,
    >)
        ensures
            r matches Ok(m) && m.entries@.len() == 0 && m.indent == self.indent,
    {
        Ok(NixStructSerializer { entries: Vec::new(), indent: self.indent })
    }

    /// Starts a struct variant: as an attribute set; the variant's name
    /// is dropped.
    pub fn serialize_struct_variant(
        self,
        _name: &str,
        _variant_index: u32,
        _variant: &str,
        _len: usize,
    ) -> (r: Result<NixStructSerializer, Error>)
        ensures
            r matches Ok(m) && m.entries@.len() == 0 && m.indent == self.indent,
    {
        Ok(NixStructSerializer { entries: Vec::new(), indent: self.indent })
    }
}

} // verus!
