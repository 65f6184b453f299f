//! Runtime-bindable patch buffers and their placeholders.
//!
//! A placeholder is a named, fixed-offset four-byte field inside a patch
//! buffer. Binding writes a caller-supplied value into the field: verbatim
//! for an absolute (immediate) field, or as the 32-bit wraparound
//! displacement from the field's own end for a relative field. The buffer's
//! base address is handed in as a plain value; the library never takes the
//! address of memory itself.

use vstd::prelude::*;
use vstd::bytes::{spec_u32_to_le_bytes, u32_to_le_bytes};

use crate::addr::{
    lemma_wrap32_add, lemma_wrap32_add_left, lemma_wrap32_sub_right, to_addr32, wrap32, wrap_add32,
    wrap_sub32,
};
use crate::template::{
    compile_components, lemma_components_layout_wf, parse_components, spec_components_layout,
    spec_duplicate_at, spec_elaborate, spec_has_duplicate, spec_table_model, DefinitionError,
    DefinitionErrorModel, FieldModel, TemplateLayout, TemplateToken,
};

verus! {

/// A named four-byte field of a patch buffer, filled in at bind time.
///
/// If the placeholder is relative, the value written is the displacement from
/// the end of the field to the supplied target address; otherwise the value
/// is written verbatim. Little-endian either way.
#[derive(Debug, Clone, Copy)]
pub struct PatchPlaceholder {
    /// Offset of the first byte of the four-byte field within the buffer.
    pub offset: usize,
    /// Whether the field holds a displacement rather than an immediate.
    pub is_relative: bool,
    /// The value most recently bound into the field, if any.
    pub value: Option<u32>,
}

impl PatchPlaceholder {
    /// Make a placeholder for the four-byte field at `offset`, with no value
    /// bound yet.
    pub fn new(offset: usize, is_relative: bool) -> (p: Self)
        ensures
            p.offset == offset,
            p.is_relative == is_relative,
            p.value is None,
    {
        Self { offset, is_relative, value: None }
    }

    /// The four bytes that binding `value` writes into this placeholder's
    /// field, for a buffer based at address `buf_addr`: the value itself, or
    /// the wraparound displacement from the field's end to it.
    pub open spec fn spec_field_bytes(&self, buf_addr: u32, value: u32) -> Seq<u8> {
        if self.is_relative {
            spec_u32_to_le_bytes(wrap32(value - buf_addr - self.offset - 4))
        } else {
            spec_u32_to_le_bytes(value)
        }
    }

    /// Set the value of the placeholder and patch it into the buffer at the appropriate location
    ///
    /// If `value` is a memory address, it should be an absolute address, even if the placeholder is
    /// relative: a relative placeholder computes the displacement itself, from
    /// the address of its own field (`buf_addr` + offset + 4 bytes).
    pub fn set_value(&mut self, buf: &mut Vec<u8>, buf_addr: u32, value: u32)
        requires
            old(self).offset + 4 <= old(buf)@.len(),
        ensures
            final(self).offset == old(self).offset,
            final(self).is_relative == old(self).is_relative,
            final(self).value == Some(value),
            final(buf)@.len() == old(buf)@.len(),
            final(buf)@.subrange(old(self).offset as int, old(self).offset + 4)
                == old(self).spec_field_bytes(buf_addr, value),
            forall|i: int|
                0 <= i < old(buf)@.len() && !(old(self).offset <= i < old(self).offset + 4)
                    ==> final(buf)@[i] == old(buf)@[i],
    {
        self.value = Some(value);

        let value_bytes = if self.is_relative {
            let field_addr = wrap_add32(wrap_add32(buf_addr, to_addr32(self.offset)), 4);
            proof {
                lemma_wrap32_add(buf_addr as int, self.offset as int);
                lemma_wrap32_add_left(buf_addr + self.offset, 4);
                lemma_wrap32_sub_right(value as int, buf_addr + self.offset + 4);
            }
            u32_to_le_bytes(wrap_sub32(value, field_addr))
        } else {
            u32_to_le_bytes(value)
        };

        let ghost expected = self.spec_field_bytes(buf_addr, value);
        assert(value_bytes@ == expected);

        let buf_len = buf.len();
        let mut j: usize = 0;
        while j < 4
            invariant
                j <= 4,
                self.offset + 4 <= buf_len,
                buf_len == buf@.len(),
                value_bytes@.len() == 4,
                value_bytes@ == expected,
                forall|i: int|
                    0 <= i < buf@.len() && !(self.offset <= i < self.offset + 4) ==> buf@[i]
                        == old(buf)@[i],
                forall|i: int| 0 <= i < j ==> buf@[self.offset + i] == expected[i],
                buf@.len() == old(buf)@.len(),
            decreases 4 - j,
        {
            let b = value_bytes[j];
            buf[self.offset + j] = b;
            j += 1;
        }
        assert(buf@.subrange(self.offset as int, self.offset + 4) =~= expected);
    }
}

/// Law: a bound relative field redirects control to its bound target. The
/// displacement a relative placeholder writes for `value`, read back and
/// added at its anchor — the end of the field, `buf_addr` + offset + 4 —
/// lands exactly on `value`, whatever the distance between buffer and
/// target.
pub proof fn lemma_relative_bind_round_trip(ph: PatchPlaceholder, buf_addr: u32, value: u32)
    requires
        ph.is_relative,
    ensures
        wrap32(
            buf_addr + ph.offset + 4 + vstd::bytes::spec_u32_from_le_bytes(
                ph.spec_field_bytes(buf_addr, value),
            ),
        ) == value,
{
    vstd::bytes::lemma_auto_spec_u32_to_from_le_bytes();
    assert(spec_u32_to_le_bytes(wrap32(value - buf_addr - ph.offset - 4)).len() == 4);
    assert(vstd::bytes::spec_u32_from_le_bytes(
        spec_u32_to_le_bytes(wrap32(value - buf_addr - ph.offset - 4)),
    ) == wrap32(value - buf_addr - ph.offset - 4));
    crate::addr::lemma_wrap32_add(
        buf_addr + ph.offset + 4,
        value - buf_addr - ph.offset - 4,
    );
    crate::addr::lemma_wrap32_id(value);
}

/// Whether buffer position `i` lies inside some placeholder's four-byte
/// field.
pub open spec fn spec_in_field(placeholders: Seq<PatchPlaceholder>, i: int) -> bool {
    exists|k: int|
        0 <= k < placeholders.len() && (#[trigger] placeholders[k]).offset <= i < placeholders[k].offset
            + 4
}

/// A compiled patch instance: a fixed-size byte buffer and its named
/// placeholders.
///
/// An instance starts with every placeholder field zeroed and nothing bound.
/// Binding writes every placeholder's value into the buffer; it may be
/// repeated (an idempotent overwrite) as long as the buffer's base address
/// has not changed, since relative fields are anchored to it. Making the
/// bytes executable in a target process is the caller's business, through
/// whatever protection primitive it holds.
#[derive(Debug)]
pub struct Patch {
    /// The patch bytes: literals and (initially zeroed) placeholder fields.
    pub buf: Vec<u8>,
    /// Placeholder names, in declaration order.
    pub names: Vec<String>,
    /// Placeholder descriptors, parallel to `names`.
    pub placeholders: Vec<PatchPlaceholder>,
}

impl Patch {
    /// The field descriptors this instance's tables denote.
    pub open spec fn spec_fields(&self) -> Seq<FieldModel> {
        spec_table_model(self.names@, self.placeholders@)
    }

    /// Well-formedness: the name and placeholder tables are parallel, every
    /// four-byte field lies inside the buffer, and the fields come in
    /// ascending order with disjoint extents.
    pub open spec fn wf(&self) -> bool {
        &&& self.names@.len() == self.placeholders@.len()
        &&& forall|k: int|
            0 <= k < self.placeholders@.len() ==> (#[trigger] self.placeholders@[k]).offset + 4
                <= self.buf@.len()
        &&& forall|j: int, k: int|
            0 <= j < k < self.placeholders@.len() ==> (#[trigger] self.placeholders@[j]).offset + 4
                <= (#[trigger] self.placeholders@[k]).offset
    }

    /// Compile a patch template into a fresh instance.
    ///
    /// The buffer holds the template's literal bytes with every placeholder
    /// field zeroed; the placeholder table records each declared name with
    /// its buffer offset and relativity, in declaration order. The first
    /// offending token is reported as a definition error: an unknown
    /// mnemonic or a missing target as the parser meets it; otherwise, a
    /// duplicate placeholder name at its second occurrence.
    pub fn parse(tokens: &Vec<TemplateToken>) -> (r: Result<Patch, DefinitionError>)
        requires
            spec_elaborate(tokens@, 0) matches Ok(l) ==> l.bytes.len() <= usize::MAX,
        ensures
            match r {
                Ok(p) => {
                    &&& spec_elaborate(tokens@, 0) is Ok
                    &&& p.buf@ == spec_elaborate(tokens@, 0)->Ok_0.bytes
                    &&& p.spec_fields() == spec_elaborate(tokens@, 0)->Ok_0.fields
                    &&& !spec_has_duplicate(p.spec_fields())
                    &&& p.wf()
                    &&& forall|k: int|
                        0 <= k < p.placeholders@.len() ==> p.placeholders@[k].value is None
                },
                Err(e) => match spec_elaborate(tokens@, 0) {
                    Err(em) => e@ == em,
                    Ok(l) => {
                        &&& spec_has_duplicate(l.fields)
                        &&& exists|k: int|
                            {
                                &&& 0 <= k < l.fields.len()
                                &&& #[trigger] spec_duplicate_at(l.fields, k)
                                &&& e@ == DefinitionErrorModel::DuplicateName(l.fields[k].name)
                                &&& forall|k2: int| 0 <= k2 < k ==> !spec_duplicate_at(l.fields, k2)
                            }
                    },
                },
            },
    {
        let comps = match parse_components(tokens) {
            Ok(c) => c,
            Err(e) => {
                return Err(e);
            },
        };
        let (buf, names, placeholders) = compile_components(&comps);
        let ghost fields = spec_table_model(names@, placeholders@);

        let mut k: usize = 1;
        while k < names.len()
            invariant
                1 <= k,
                fields == spec_table_model(names@, placeholders@),
                names@.len() == placeholders@.len(),
                fields.len() == names@.len(),
                spec_elaborate(tokens@, 0) == Ok::<TemplateLayout, DefinitionErrorModel>(
                    spec_components_layout(comps@, 0),
                ),
                spec_components_layout(comps@, 0).fields == fields,
                forall|k2: int| 0 <= k2 < k && k2 < fields.len() ==> !spec_duplicate_at(fields, k2),
            decreases names@.len() - k,
        {
            let mut j: usize = 0;
            while j < k
                invariant
                    j <= k < names@.len(),
                    fields == spec_table_model(names@, placeholders@),
                    names@.len() == placeholders@.len(),
                    fields.len() == names@.len(),
                    spec_elaborate(tokens@, 0) == Ok::<TemplateLayout, DefinitionErrorModel>(
                        spec_components_layout(comps@, 0),
                    ),
                    spec_components_layout(comps@, 0).fields == fields,
                    forall|k2: int|
                        0 <= k2 < k && k2 < fields.len() ==> !spec_duplicate_at(fields, k2),
                    forall|j2: int| 0 <= j2 < j ==> fields[j2].name != fields[k as int].name,
                decreases k - j,
            {
                if names[j].eq(&names[k]) {
                    proof {
                        assert(fields[j as int].name == fields[k as int].name);
                        assert(spec_duplicate_at(fields, k as int));
                        assert(spec_elaborate(tokens@, 0)->Ok_0.fields == fields);
                        assert(spec_duplicate_at(spec_elaborate(tokens@, 0)->Ok_0.fields, k as int));
                        assert(spec_has_duplicate(spec_elaborate(tokens@, 0)->Ok_0.fields));
                        assert(fields[k as int].name == names@[k as int]@);
                    }
                    return Err(DefinitionError::DuplicateName(names[k].clone()));
                }
                j = j + 1;
            }
            proof {
                assert(!spec_duplicate_at(fields, k as int));
            }
            k = k + 1;
        }
        proof {
            assert(!spec_has_duplicate(fields)) by {
                if spec_has_duplicate(fields) {
                    let (j, k) = choose|j: int, k: int|
                        0 <= j < k < fields.len() && fields[j].name == fields[k].name;
                    assert(spec_duplicate_at(fields, k));
                }
            }
            lemma_components_layout_wf(comps@, 0);
            assert forall|k2: int|
                0 <= k2 < placeholders@.len() implies (#[trigger] placeholders@[k2]).offset + 4
                <= buf@.len() by {
                assert(spec_components_layout(comps@, 0).fields[k2].offset == fields[k2].offset);
                assert(fields[k2].offset == placeholders@[k2].offset);
            }
            assert forall|j2: int, k2: int|
                0 <= j2 < k2 < placeholders@.len() implies (#[trigger] placeholders@[j2]).offset
                + 4 <= (#[trigger] placeholders@[k2]).offset by {
                assert(spec_components_layout(comps@, 0).fields[j2].offset == fields[j2].offset);
                assert(spec_components_layout(comps@, 0).fields[k2].offset == fields[k2].offset);
                assert(fields[j2].offset == placeholders@[j2].offset);
                assert(fields[k2].offset == placeholders@[k2].offset);
            }
        }
        Ok(Patch { buf, names, placeholders })
    }

    /// The patch bytes.
    pub fn buf(&self) -> (b: &[u8])
        ensures
            b@ == self.buf@,
    {
        self.buf.as_slice()
    }

    /// Bind a value to each placeholder, in declaration order.
    ///
    /// Every placeholder's field is written: verbatim for an absolute field,
    /// and as the displacement from the field's end for a relative field,
    /// resolved against `buf_addr`, the address the buffer's first byte
    /// occupies (or will occupy) in the target address space. A value that
    /// stands for an address is always the absolute address, even for a
    /// relative placeholder: the conversion to a displacement is this
    /// method's job. Bytes outside the fields are untouched. The
    /// placeholders are independent; binding again overwrites idempotently,
    /// provided the buffer still sits at `buf_addr`.
    pub fn bind_values(&mut self, buf_addr: u32, values: &Vec<u32>)
        requires
            old(self).wf(),
            values@.len() == old(self).placeholders@.len(),
        ensures
            final(self).wf(),
            final(self).names@ == old(self).names@,
            final(self).buf@.len() == old(self).buf@.len(),
            final(self).placeholders@.len() == old(self).placeholders@.len(),
            forall|k: int|
                0 <= k < old(self).placeholders@.len() ==> {
                    &&& (#[trigger] final(self).placeholders@[k]).offset == old(
                        self,
                    ).placeholders@[k].offset
                    &&& final(self).placeholders@[k].is_relative == old(
                        self,
                    ).placeholders@[k].is_relative
                    &&& final(self).placeholders@[k].value == Some(values@[k])
                },
            forall|k: int|
                0 <= k < old(self).placeholders@.len() ==> final(self).buf@.subrange(
                    #[trigger] old(self).placeholders@[k].offset as int,
                    old(self).placeholders@[k].offset + 4,
                ) == old(self).placeholders@[k].spec_field_bytes(buf_addr, values@[k]),
            forall|i: int|
                0 <= i < old(self).buf@.len() && !spec_in_field(old(self).placeholders@, i)
                    ==> final(self).buf@[i] == old(self).buf@[i],
    {
        let ghost phs0 = old(self).placeholders@;
        let ghost buf0 = old(self).buf@;
        let mut k: usize = 0;
        while k < self.placeholders.len()
            invariant
                k <= phs0.len(),
                values@.len() == phs0.len(),
                old(self).names@.len() == phs0.len(),
                self.names@ == old(self).names@,
                self.placeholders@.len() == phs0.len(),
                self.buf@.len() == buf0.len(),
                forall|k2: int|
                    0 <= k2 < phs0.len() ==> (#[trigger] phs0[k2]).offset + 4 <= buf0.len(),
                forall|j2: int, k2: int|
                    0 <= j2 < k2 < phs0.len() ==> (#[trigger] phs0[j2]).offset + 4 <= (
                    #[trigger] phs0[k2]).offset,
                forall|k2: int| k <= k2 < phs0.len() ==> self.placeholders@[k2] == phs0[k2],
                forall|k2: int|
                    0 <= k2 < k ==> {
                        &&& (#[trigger] self.placeholders@[k2]).offset == phs0[k2].offset
                        &&& self.placeholders@[k2].is_relative == phs0[k2].is_relative
                        &&& self.placeholders@[k2].value == Some(values@[k2])
                    },
                forall|k2: int|
                    0 <= k2 < k ==> self.buf@.subrange(
                        #[trigger] phs0[k2].offset as int,
                        phs0[k2].offset + 4,
                    ) == phs0[k2].spec_field_bytes(buf_addr, values@[k2]),
                forall|i: int|
                    0 <= i < buf0.len() && !spec_in_field(phs0, i) ==> self.buf@[i] == buf0[i],
            decreases phs0.len() - k,
        {
            let ghost pre = self.buf@;
            let v = values[k];
            let mut ph = self.placeholders[k];
            ph.set_value(&mut self.buf, buf_addr, v);
            self.placeholders[k] = ph;
            proof {
                assert(spec_in_field(phs0, phs0[k as int].offset as int));
                // earlier fields are disjoint from the one just written
                assert forall|k2: int|
                    0 <= k2 < k implies self.buf@.subrange(
                    #[trigger] phs0[k2].offset as int,
                    phs0[k2].offset + 4,
                ) == phs0[k2].spec_field_bytes(buf_addr, values@[k2]) by {
                    assert(phs0[k2].offset + 4 <= phs0[k as int].offset);
                    assert(pre.subrange(phs0[k2].offset as int, phs0[k2].offset + 4) == phs0[k2].spec_field_bytes(buf_addr, values@[k2]));
                    assert(self.buf@.subrange(phs0[k2].offset as int, phs0[k2].offset + 4) =~= pre.subrange(phs0[k2].offset as int, phs0[k2].offset + 4));
                }
                // positions in no field stay untouched
                assert forall|i: int|
                    0 <= i < buf0.len() && !spec_in_field(phs0, i) implies self.buf@[i]
                    == buf0[i] by {
                    assert(!(phs0[k as int].offset <= i < phs0[k as int].offset + 4));
                    assert(self.buf@[i] == pre[i]);
                }
            }
            k = k + 1;
        }
    }
}

} // verus!
