//! Patch templates: a declarative instruction grammar and its compiler.
//!
//! A template is a flat token stream mixing unsigned byte literals with
//! `mnemonic targetName` pairs. A mnemonic is either a bare field kind
//! (`imm32`, `rel32`), an instruction from a fixed table that contributes its
//! opcode prefix and the relativity of its field, or a zero-operand
//! pseudo-instruction that expands to a single literal byte. Compilation
//! turns the stream into a fixed-layout buffer (placeholder fields zeroed)
//! and a table giving each placeholder's buffer offset and relativity.

use vstd::prelude::*;

verus! {

/// One token of a patch template: an unsigned byte literal, or a word (a
/// mnemonic or a placeholder name). The surface syntax allows optional
/// commas between tokens; those are separators only and never reach the
/// stream.
#[derive(Debug, Clone)]
pub enum TemplateToken {
    /// A literal byte of the patch.
    Byte(u8),
    /// A mnemonic or a placeholder name.
    Word(String),
}

/// Ghost mirror of [`DefinitionError`], over character sequences.
pub enum DefinitionErrorModel {
    UnknownMnemonic(Seq<char>),
    MissingTarget(Seq<char>),
    DuplicateName(Seq<char>),
}

/// Error detected when a patch template is defined, before any instance
/// exists.
#[derive(Debug, PartialEq, Eq)]
pub enum DefinitionError {
    /// A word in instruction position is not a recognized mnemonic; carries
    /// the offending word.
    UnknownMnemonic(String),
    /// A mnemonic that declares a placeholder is not followed by a target
    /// name; carries the mnemonic.
    MissingTarget(String),
    /// The same placeholder name is declared twice; carries the name.
    DuplicateName(String),
}

impl View for DefinitionError {
    type V = DefinitionErrorModel;

    open spec fn view(&self) -> DefinitionErrorModel {
        match self {
            DefinitionError::UnknownMnemonic(w) => DefinitionErrorModel::UnknownMnemonic(w@),
            DefinitionError::MissingTarget(w) => DefinitionErrorModel::MissingTarget(w@),
            DefinitionError::DuplicateName(w) => DefinitionErrorModel::DuplicateName(w@),
        }
    }
}

/// The single literal byte a zero-operand pseudo-instruction expands to, if
/// the word is one.
pub open spec fn spec_pseudo_byte(w: Seq<char>) -> Option<u8> {
    if w == "pushad"@ {
        Some(0x60u8)
    } else if w == "popad"@ {
        Some(0x61u8)
    } else if w == "ret"@ || w == "retn"@ {
        Some(0xC3u8)
    } else {
        None
    }
}

/// The opcode-prefix bytes and field relativity a placeholder-declaring
/// mnemonic stands for, if the word is one. A relative field is filled with
/// a displacement at bind time; an absolute field with the value itself.
pub open spec fn spec_mnemonic(w: Seq<char>) -> Option<(Seq<u8>, bool)> {
    if w == "imm32"@ {
        Some((seq![], false))
    } else if w == "rel32"@ {
        Some((seq![], true))
    } else if w == "call"@ {
        Some((seq![0xE8u8], true))
    } else if w == "jmp"@ {
        Some((seq![0xE9u8], true))
    } else if w == "jo"@ {
        Some((seq![0x0Fu8, 0x80u8], true))
    } else if w == "jno"@ {
        Some((seq![0x0Fu8, 0x81u8], true))
    } else if w == "jb"@ || w == "jc"@ || w == "jnae"@ {
        Some((seq![0x0Fu8, 0x82u8], true))
    } else if w == "jae"@ || w == "jnb"@ || w == "jnc"@ {
        Some((seq![0x0Fu8, 0x83u8], true))
    } else if w == "jz"@ || w == "je"@ {
        Some((seq![0x0Fu8, 0x84u8], true))
    } else if w == "jne"@ || w == "jnz"@ {
        Some((seq![0x0Fu8, 0x85u8], true))
    } else if w == "jbe"@ || w == "jna"@ {
        Some((seq![0x0Fu8, 0x86u8], true))
    } else if w == "ja"@ || w == "jnbe"@ {
        Some((seq![0x0Fu8, 0x87u8], true))
    } else if w == "js"@ {
        Some((seq![0x0Fu8, 0x88u8], true))
    } else if w == "jns"@ {
        Some((seq![0x0Fu8, 0x89u8], true))
    } else if w == "jp"@ || w == "jpe"@ {
        Some((seq![0x0Fu8, 0x8Au8], true))
    } else if w == "jnp"@ || w == "jpo"@ {
        Some((seq![0x0Fu8, 0x8Bu8], true))
    } else if w == "jl"@ || w == "jnge"@ {
        Some((seq![0x0Fu8, 0x8Cu8], true))
    } else if w == "jge"@ || w == "jnl"@ {
        Some((seq![0x0Fu8, 0x8Du8], true))
    } else if w == "jle"@ || w == "jng"@ {
        Some((seq![0x0Fu8, 0x8Eu8], true))
    } else if w == "jg"@ || w == "jnle"@ {
        Some((seq![0x0Fu8, 0x8Fu8], true))
    } else if w == "push"@ {
        Some((seq![0x68u8], false))
    } else {
        None
    }
}

/// One component of a parsed patch template: a run of literal bytes, a
/// relative placeholder field with its opcode-prefix bytes, or an absolute
/// (immediate) placeholder field.
#[derive(Debug)]
pub enum PatchComponent {
    /// Literal bytes, emitted verbatim.
    Bytes(Vec<u8>),
    /// Opcode-prefix bytes followed by a four-byte relative field with the
    /// given placeholder name.
    Rel32(Vec<u8>, String),
    /// A four-byte absolute field with the given placeholder name.
    Imm32(String),
}

impl PatchComponent {
    /// Number of buffer bytes the component occupies.
    pub open spec fn spec_size(&self) -> nat {
        match self {
            PatchComponent::Bytes(b) => b@.len(),
            PatchComponent::Rel32(p, _) => p@.len() + 4,
            PatchComponent::Imm32(_) => 4,
        }
    }

    /// Number of buffer bytes the component occupies.
    pub fn size(&self) -> (n: usize)
        requires
            self.spec_size() <= usize::MAX,
        ensures
            n == self.spec_size(),
    {
        match self {
            PatchComponent::Bytes(b) => b.len(),
            PatchComponent::Rel32(p, _) => p.len() + 4,
            PatchComponent::Imm32(_) => 4,
        }
    }
}

/// Ghost description of one placeholder field: its name, the buffer offset
/// of its four-byte field (after any opcode prefix), and its relativity.
#[verifier::ext_equal]
pub struct FieldModel {
    pub name: Seq<char>,
    pub offset: int,
    pub is_relative: bool,
}

/// Ghost description of what a template (or a part of one) compiles to: the
/// initial buffer bytes, placeholder fields zeroed, and the placeholder
/// descriptors in declaration order.
#[verifier::ext_equal]
pub struct TemplateLayout {
    pub bytes: Seq<u8>,
    pub fields: Seq<FieldModel>,
}

/// The layout of nothing.
pub open spec fn layout_empty() -> TemplateLayout {
    TemplateLayout { bytes: Seq::empty(), fields: Seq::empty() }
}

/// The layout of a run of literal bytes.
pub open spec fn lit_layout(bytes: Seq<u8>) -> TemplateLayout {
    TemplateLayout { bytes, fields: Seq::empty() }
}

/// Four zero bytes: the initial contents of a placeholder field.
pub open spec fn zero4() -> Seq<u8> {
    seq![0u8, 0u8, 0u8, 0u8]
}

/// The layout of one placeholder declaration: the opcode prefix, then the
/// zeroed four-byte field, whose offset is just past the prefix.
pub open spec fn field_layout(prefix: Seq<u8>, is_relative: bool, name: Seq<char>) -> TemplateLayout {
    TemplateLayout {
        bytes: prefix + zero4(),
        fields: seq![
            FieldModel { name, offset: prefix.len() as int, is_relative },
        ],
    }
}

/// Field descriptors moved `k` bytes further into the buffer.
pub open spec fn shift_fields(fields: Seq<FieldModel>, k: int) -> Seq<FieldModel> {
    fields.map(
        |_i: int, f: FieldModel|
            FieldModel { name: f.name, offset: f.offset + k, is_relative: f.is_relative },
    )
}

/// Two layouts laid out one after the other: the second's fields shift past
/// the first's bytes.
pub open spec fn layout_cat(a: TemplateLayout, b: TemplateLayout) -> TemplateLayout {
    TemplateLayout {
        bytes: a.bytes + b.bytes,
        fields: a.fields + shift_fields(b.fields, a.bytes.len() as int),
    }
}

/// Shifting by nothing changes nothing.
pub proof fn lemma_shift_fields_zero(fields: Seq<FieldModel>)
    ensures
        shift_fields(fields, 0) == fields,
{
    assert(shift_fields(fields, 0) =~= fields);
}

/// Two shifts fold into one.
pub proof fn lemma_shift_fields_twice(fields: Seq<FieldModel>, j: int, k: int)
    ensures
        shift_fields(shift_fields(fields, j), k) == shift_fields(fields, j + k),
{
    assert(shift_fields(shift_fields(fields, j), k) =~= shift_fields(fields, j + k));
}

/// Shifting distributes over field concatenation.
pub proof fn lemma_shift_fields_add(a: Seq<FieldModel>, b: Seq<FieldModel>, k: int)
    ensures
        shift_fields(a + b, k) == shift_fields(a, k) + shift_fields(b, k),
{
    assert(shift_fields(a + b, k) =~= shift_fields(a, k) + shift_fields(b, k));
}

/// The empty layout is a left identity of concatenation.
pub proof fn lemma_layout_cat_empty_left(l: TemplateLayout)
    ensures
        layout_cat(layout_empty(), l) == l,
{
    lemma_shift_fields_zero(l.fields);
    assert(layout_cat(layout_empty(), l) =~= l);
}

/// The empty layout is a right identity of concatenation.
pub proof fn lemma_layout_cat_empty_right(l: TemplateLayout)
    ensures
        layout_cat(l, layout_empty()) == l,
{
    assert(layout_cat(l, layout_empty()) =~= l);
}

/// Layout concatenation is associative.
pub proof fn lemma_layout_cat_assoc(a: TemplateLayout, b: TemplateLayout, c: TemplateLayout)
    ensures
        layout_cat(layout_cat(a, b), c) == layout_cat(a, layout_cat(b, c)),
{
    lemma_shift_fields_add(b.fields, shift_fields(c.fields, b.bytes.len() as int), a.bytes.len() as int);
    lemma_shift_fields_twice(c.fields, b.bytes.len() as int, a.bytes.len() as int);
    assert(layout_cat(layout_cat(a, b), c) =~= layout_cat(a, layout_cat(b, c)));
}

/// Adjacent literal runs merge.
pub proof fn lemma_lit_layout_merge(a: Seq<u8>, b: Seq<u8>)
    ensures
        layout_cat(lit_layout(a), lit_layout(b)) == lit_layout(a + b),
{
    assert(layout_cat(lit_layout(a), lit_layout(b)) =~= lit_layout(a + b));
}

/// Well-formedness of a layout: every field sits inside the buffer, and the
/// fields come in ascending order with disjoint four-byte extents.
pub open spec fn layout_wf(l: TemplateLayout) -> bool {
    &&& forall|k: int|
        0 <= k < l.fields.len() ==> 0 <= #[trigger] l.fields[k].offset && l.fields[k].offset + 4
            <= l.bytes.len()
    &&& forall|j: int, k: int|
        0 <= j < k < l.fields.len() ==> #[trigger] l.fields[j].offset + 4 <= #[trigger] l.fields[k].offset
}

/// Concatenation preserves layout well-formedness.
pub proof fn lemma_layout_cat_wf(a: TemplateLayout, b: TemplateLayout)
    requires
        layout_wf(a),
        layout_wf(b),
    ensures
        layout_wf(layout_cat(a, b)),
{
}

/// Whether some placeholder name is declared twice.
pub open spec fn spec_has_duplicate(fields: Seq<FieldModel>) -> bool {
    exists|j: int, k: int| 0 <= j < k < fields.len() && fields[j].name == fields[k].name
}

/// Whether the field at index `k` repeats an earlier field's name.
pub open spec fn spec_duplicate_at(fields: Seq<FieldModel>, k: int) -> bool {
    exists|j: int| 0 <= j < k && fields[j].name == fields[k].name
}

/// The layout of one parsed component.
pub open spec fn spec_component_layout(c: PatchComponent) -> TemplateLayout {
    match c {
        PatchComponent::Bytes(b) => lit_layout(b@),
        PatchComponent::Rel32(p, name) => field_layout(p@, true, name@),
        PatchComponent::Imm32(name) => field_layout(Seq::empty(), false, name@),
    }
}

/// The layout of the components from index `i` on, laid out in order.
pub open spec fn spec_components_layout(cs: Seq<PatchComponent>, i: int) -> TemplateLayout
    decreases cs.len() - i,
{
    if i < 0 || i >= cs.len() {
        layout_empty()
    } else {
        layout_cat(spec_component_layout(cs[i]), spec_components_layout(cs, i + 1))
    }
}

/// The layout the template tokens from index `i` on elaborate to, or the
/// first definition error in them. A byte literal or a pseudo-instruction
/// contributes a literal byte; a recognized mnemonic consumes the following
/// word as its placeholder name and contributes its field; any other word in
/// instruction position is unknown, and a mnemonic not followed by a word
/// lacks its target.
pub open spec fn spec_elaborate(tokens: Seq<TemplateToken>, i: int) -> Result<
    TemplateLayout,
    DefinitionErrorModel,
>
    decreases tokens.len() - i,
{
    if i < 0 || i >= tokens.len() {
        Ok(layout_empty())
    } else {
        match tokens[i] {
            TemplateToken::Byte(b) => match spec_elaborate(tokens, i + 1) {
                Ok(rest) => Ok(layout_cat(lit_layout(seq![b]), rest)),
                Err(e) => Err(e),
            },
            TemplateToken::Word(w) => {
                if spec_pseudo_byte(w@) is Some {
                    match spec_elaborate(tokens, i + 1) {
                        Ok(rest) => Ok(
                            layout_cat(lit_layout(seq![spec_pseudo_byte(w@)->Some_0]), rest),
                        ),
                        Err(e) => Err(e),
                    }
                } else {
                    match spec_mnemonic(w@) {
                        None => Err(DefinitionErrorModel::UnknownMnemonic(w@)),
                        Some((prefix, is_relative)) => {
                            if i + 1 < tokens.len() && tokens[i + 1] matches TemplateToken::Word(_) {
                                let name = tokens[i + 1]->Word_0;
                                match spec_elaborate(tokens, i + 2) {
                                    Ok(rest) => Ok(
                                        layout_cat(field_layout(prefix, is_relative, name@), rest),
                                    ),
                                    Err(e) => Err(e),
                                }
                            } else {
                                Err(DefinitionErrorModel::MissingTarget(w@))
                            }
                        },
                    }
                }
            },
        }
    }
}

/// Relies on str's `PartialEq`: two string slices compare equal exactly when
/// their character sequences do.
#[verifier::external_body]
fn str_eq(a: &str, b: &str) -> (r: bool)
    ensures
        r == (a@ == b@),
{
    a == b
}

/// Appending a component extends the laid-out sequence on the right.
proof fn lemma_components_layout_push_from(cs: Seq<PatchComponent>, c: PatchComponent, i: int)
    requires
        0 <= i <= cs.len(),
    ensures
        spec_components_layout(cs.push(c), i) == layout_cat(
            spec_components_layout(cs, i),
            spec_component_layout(c),
        ),
    decreases cs.len() - i,
{
    if i == cs.len() {
        assert(cs.push(c)[i] == c);
        assert(spec_components_layout(cs.push(c), i + 1) == layout_empty());
        assert(spec_components_layout(cs, i) == layout_empty());
        lemma_layout_cat_empty_right(spec_component_layout(c));
        lemma_layout_cat_empty_left(spec_component_layout(c));
    } else {
        assert(cs.push(c)[i] == cs[i]);
        lemma_components_layout_push_from(cs, c, i + 1);
        lemma_layout_cat_assoc(
            spec_component_layout(cs[i]),
            spec_components_layout(cs, i + 1),
            spec_component_layout(c),
        );
    }
}

/// Appending a component extends the whole layout on the right.
pub proof fn lemma_components_layout_push(cs: Seq<PatchComponent>, c: PatchComponent)
    ensures
        spec_components_layout(cs.push(c), 0) == layout_cat(
            spec_components_layout(cs, 0),
            spec_component_layout(c),
        ),
{
    lemma_components_layout_push_from(cs, c, 0);
}

/// A placeholder declaration splits into its opcode prefix and a bare field.
proof fn lemma_field_layout_split(prefix: Seq<u8>, is_relative: bool, name: Seq<char>)
    ensures
        field_layout(prefix, is_relative, name) == layout_cat(
            lit_layout(prefix),
            field_layout(Seq::empty(), is_relative, name),
        ),
{
    assert(field_layout(prefix, is_relative, name) =~= layout_cat(
        lit_layout(prefix),
        field_layout(Seq::empty(), is_relative, name),
    ));
}

/// Total size in bytes of the components from index `i` on.
pub open spec fn spec_total_size(cs: Seq<PatchComponent>, i: int) -> nat
    decreases cs.len() - i,
{
    if i < 0 || i >= cs.len() {
        0
    } else {
        cs[i].spec_size() + spec_total_size(cs, i + 1)
    }
}

/// Law: a compiled buffer's length is exactly the sum of its components'
/// byte lengths.
pub proof fn lemma_buffer_len_is_total_size(cs: Seq<PatchComponent>, i: int)
    ensures
        spec_components_layout(cs, i).bytes.len() == spec_total_size(cs, i),
    decreases cs.len() - i,
{
    if 0 <= i < cs.len() {
        lemma_buffer_len_is_total_size(cs, i + 1);
        assert(spec_component_layout(cs[i]).bytes.len() == cs[i].spec_size());
    }
}

/// Every component sequence lays out to a well-formed layout.
pub proof fn lemma_components_layout_wf(cs: Seq<PatchComponent>, i: int)
    ensures
        layout_wf(spec_components_layout(cs, i)),
    decreases cs.len() - i,
{
    if 0 <= i < cs.len() {
        lemma_components_layout_wf(cs, i + 1);
        lemma_layout_cat_wf(spec_component_layout(cs[i]), spec_components_layout(cs, i + 1));
    }
}

/// One step of the parse loop: absorbing the layout of the tokens between
/// positions `i` and `j` into the accumulated prefix keeps the whole
/// elaboration equal.
proof fn lemma_absorb_step(
    tokens: Seq<TemplateToken>,
    i: int,
    j: int,
    done: TemplateLayout,
    head: TemplateLayout,
)
    requires
        spec_elaborate(tokens, 0) == (match spec_elaborate(tokens, i) {
            Ok(rest) => Ok::<TemplateLayout, DefinitionErrorModel>(layout_cat(done, rest)),
            Err(e) => Err(e),
        }),
        spec_elaborate(tokens, i) == (match spec_elaborate(tokens, j) {
            Ok(rest) => Ok::<TemplateLayout, DefinitionErrorModel>(layout_cat(head, rest)),
            Err(e) => Err(e),
        }),
    ensures
        spec_elaborate(tokens, 0) == (match spec_elaborate(tokens, j) {
            Ok(rest) => Ok::<TemplateLayout, DefinitionErrorModel>(
                layout_cat(layout_cat(done, head), rest),
            ),
            Err(e) => Err(e),
        }),
{
    match spec_elaborate(tokens, j) {
        Ok(rest) => {
            lemma_layout_cat_assoc(done, head, rest);
        },
        Err(_) => {},
    }
}

/// A one-byte vector.
fn bytes1(a: u8) -> (v: Vec<u8>)
    ensures
        v@ == seq![a],
{
    let mut v: Vec<u8> = Vec::new();
    v.push(a);
    proof {
        assert(v@ =~= seq![a]);
    }
    v
}

/// A two-byte vector.
fn bytes2(a: u8, b: u8) -> (v: Vec<u8>)
    ensures
        v@ == seq![a, b],
{
    let mut v: Vec<u8> = Vec::new();
    v.push(a);
    v.push(b);
    proof {
        assert(v@ =~= seq![a, b]);
    }
    v
}

/// Recognize a zero-operand pseudo-instruction.
fn pseudo_byte(w: &String) -> (r: Option<u8>)
    ensures
        r == spec_pseudo_byte(w@),
{
    if str_eq(w.as_str(), "pushad") {
        Some(0x60)
    } else if str_eq(w.as_str(), "popad") {
        Some(0x61)
    } else if str_eq(w.as_str(), "ret") || str_eq(w.as_str(), "retn") {
        Some(0xC3)
    } else {
        None
    }
}

/// Recognize a placeholder-declaring mnemonic and give its opcode prefix and
/// relativity.
fn mnemonic(w: &String) -> (r: Option<(Vec<u8>, bool)>)
    ensures
        r is None <==> spec_mnemonic(w@) is None,
        r matches Some((p, rel)) ==> spec_mnemonic(w@) == Some((p@, rel)),
{
    let s = w.as_str();
    if str_eq(s, "imm32") {
        Some((Vec::new(), false))
    } else if str_eq(s, "rel32") {
        Some((Vec::new(), true))
    } else if str_eq(s, "call") {
        Some((bytes1(0xE8), true))
    } else if str_eq(s, "jmp") {
        Some((bytes1(0xE9), true))
    } else if str_eq(s, "jo") {
        Some((bytes2(0x0F, 0x80), true))
    } else if str_eq(s, "jno") {
        Some((bytes2(0x0F, 0x81), true))
    } else if str_eq(s, "jb") || str_eq(s, "jc") || str_eq(s, "jnae") {
        Some((bytes2(0x0F, 0x82), true))
    } else if str_eq(s, "jae") || str_eq(s, "jnb") || str_eq(s, "jnc") {
        Some((bytes2(0x0F, 0x83), true))
    } else if str_eq(s, "jz") || str_eq(s, "je") {
        Some((bytes2(0x0F, 0x84), true))
    } else if str_eq(s, "jne") || str_eq(s, "jnz") {
        Some((bytes2(0x0F, 0x85), true))
    } else if str_eq(s, "jbe") || str_eq(s, "jna") {
        Some((bytes2(0x0F, 0x86), true))
    } else if str_eq(s, "ja") || str_eq(s, "jnbe") {
        Some((bytes2(0x0F, 0x87), true))
    } else if str_eq(s, "js") {
        Some((bytes2(0x0F, 0x88), true))
    } else if str_eq(s, "jns") {
        Some((bytes2(0x0F, 0x89), true))
    } else if str_eq(s, "jp") || str_eq(s, "jpe") {
        Some((bytes2(0x0F, 0x8A), true))
    } else if str_eq(s, "jnp") || str_eq(s, "jpo") {
        Some((bytes2(0x0F, 0x8B), true))
    } else if str_eq(s, "jl") || str_eq(s, "jnge") {
        Some((bytes2(0x0F, 0x8C), true))
    } else if str_eq(s, "jge") || str_eq(s, "jnl") {
        Some((bytes2(0x0F, 0x8D), true))
    } else if str_eq(s, "jle") || str_eq(s, "jng") {
        Some((bytes2(0x0F, 0x8E), true))
    } else if str_eq(s, "jg") || str_eq(s, "jnle") {
        Some((bytes2(0x0F, 0x8F), true))
    } else if str_eq(s, "push") {
        Some((bytes1(0x68), false))
    } else {
        None
    }
}

/// The layout of the components parsed so far, followed by the pending run
/// of literal bytes.
spec fn parse_state_layout(comps: Seq<PatchComponent>, cur: Seq<u8>) -> TemplateLayout {
    layout_cat(spec_components_layout(comps, 0), lit_layout(cur))
}

/// Appending literal bytes to the pending run extends the parse state by
/// exactly those literals.
proof fn lemma_parse_state_append(comps: Seq<PatchComponent>, cur: Seq<u8>, extra: Seq<u8>)
    ensures
        parse_state_layout(comps, cur + extra) == layout_cat(
            parse_state_layout(comps, cur),
            lit_layout(extra),
        ),
{
    lemma_layout_cat_assoc(spec_components_layout(comps, 0), lit_layout(cur), lit_layout(extra));
    lemma_lit_layout_merge(cur, extra);
}

/// Move the pending literal run, if any, into a literal component. The parse
/// state is unchanged; the pending run comes back empty.
fn flush_literals(comps: &mut Vec<PatchComponent>, cur: Vec<u8>) -> (fresh: Vec<u8>)
    ensures
        fresh@.len() == 0,
        parse_state_layout(final(comps)@, fresh@) == parse_state_layout(old(comps)@, cur@),
{
    let ghost comps0 = comps@;
    let ghost cur0 = cur@;
    if cur.len() > 0 {
        comps.push(PatchComponent::Bytes(cur));
        proof {
            let v = comps@[comps@.len() - 1];
            assert(comps@ == comps0.push(v));
            assert(spec_component_layout(v) == lit_layout(cur0));
            lemma_components_layout_push(comps0, v);
            assert(lit_layout(Seq::<u8>::empty()) =~= layout_empty());
            lemma_layout_cat_empty_right(spec_components_layout(comps@, 0));
        }
        Vec::new()
    } else {
        proof {
            assert(cur0 =~= Seq::<u8>::empty());
        }
        cur
    }
}

/// Append one placeholder component for a parsed `mnemonic target` pair,
/// flushing the pending literals first (an absolute field's opcode prefix
/// joins them). The parse state grows by the placeholder's declaration
/// layout.
fn push_placeholder(
    comps: &mut Vec<PatchComponent>,
    cur: Vec<u8>,
    prefix: Vec<u8>,
    is_relative: bool,
    name: String,
) -> (fresh: Vec<u8>)
    ensures
        fresh@.len() == 0,
        parse_state_layout(final(comps)@, fresh@) == layout_cat(
            parse_state_layout(old(comps)@, cur@),
            field_layout(prefix@, is_relative, name@),
        ),
{
    let ghost comps0 = comps@;
    let ghost cur0 = cur@;
    let ghost prefix0 = prefix@;
    let ghost name0 = name@;
    if is_relative {
        let fresh = flush_literals(comps, cur);
        let ghost comps1 = comps@;
        comps.push(PatchComponent::Rel32(prefix, name));
        proof {
            let v = comps@[comps@.len() - 1];
            assert(comps@ == comps1.push(v));
            assert(spec_component_layout(v) == field_layout(prefix0, true, name0));
            lemma_components_layout_push(comps1, v);
            // the flushed state equals the original, and appending the
            // component is exactly a concatenation on the right
            assert(lit_layout(Seq::<u8>::empty()) =~= layout_empty());
            lemma_layout_cat_empty_right(spec_components_layout(comps1, 0));
            lemma_layout_cat_empty_right(spec_components_layout(comps@, 0));
        }
        fresh
    } else {
        let mut cur = cur;
        let mut prefix = prefix;
        cur.append(&mut prefix);
        proof {
            lemma_parse_state_append(comps0, cur0, prefix0);
        }
        let fresh = flush_literals(comps, cur);
        let ghost comps1 = comps@;
        comps.push(PatchComponent::Imm32(name));
        proof {
            let v = comps@[comps@.len() - 1];
            assert(comps@ == comps1.push(v));
            assert(spec_component_layout(v) == field_layout(Seq::empty(), false, name0));
            lemma_components_layout_push(comps1, v);
            assert(lit_layout(Seq::<u8>::empty()) =~= layout_empty());
            lemma_layout_cat_empty_right(spec_components_layout(comps1, 0));
            lemma_layout_cat_empty_right(spec_components_layout(comps@, 0));
            // parse_state(comps1, []) == cat(ps0, lit(prefix)), so appending
            // the bare field regroups into the full declaration layout
            lemma_layout_cat_assoc(
                parse_state_layout(comps0, cur0),
                lit_layout(prefix0),
                field_layout(Seq::empty(), false, name0),
            );
            lemma_field_layout_split(prefix0, false, name0);
        }
        fresh
    }
}

/// Parse a template token stream into its ordered component sequence.
///
/// Adjacent byte literals — including the single bytes that pseudo-
/// instructions and `push`'s opcode expand to — coalesce into one literal
/// component; each placeholder-declaring mnemonic consumes the following
/// word as its placeholder name. The first offending token is reported as a
/// definition error. Duplicate placeholder names are not this pass's
/// concern: they are caught when the template is compiled.
pub fn parse_components(tokens: &Vec<TemplateToken>) -> (r: Result<
    Vec<PatchComponent>,
    DefinitionError,
>)
    ensures
        match r {
            Ok(comps) => spec_elaborate(tokens@, 0) == Ok::<TemplateLayout, DefinitionErrorModel>(
                spec_components_layout(comps@, 0),
            ),
            Err(e) => spec_elaborate(tokens@, 0) == Err::<TemplateLayout, DefinitionErrorModel>(e@),
        },
{
    let mut comps: Vec<PatchComponent> = Vec::new();
    let mut cur: Vec<u8> = Vec::new();
    let mut i: usize = 0;
    proof {
        assert(spec_components_layout(comps@, 0) == layout_empty());
        assert(lit_layout(cur@) =~= layout_empty());
        lemma_layout_cat_empty_right(layout_empty());
        match spec_elaborate(tokens@, 0) {
            Ok(rest) => {
                lemma_layout_cat_empty_left(rest);
            },
            Err(_) => {},
        }
    }
    while i < tokens.len()
        invariant
            i <= tokens@.len(),
            spec_elaborate(tokens@, 0) == (match spec_elaborate(tokens@, i as int) {
                Ok(rest) => Ok::<TemplateLayout, DefinitionErrorModel>(
                    layout_cat(parse_state_layout(comps@, cur@), rest),
                ),
                Err(e) => Err(e),
            }),
        decreases tokens@.len() - i,
    {
        let ghost done0 = parse_state_layout(comps@, cur@);
        let ghost i0 = i as int;
        match &tokens[i] {
            TemplateToken::Byte(b) => {
                let ghost cur0 = cur@;
                let b = *b;
                cur.push(b);
                i = i + 1;
                proof {
                    lemma_absorb_step(tokens@, i0, i0 + 1, done0, lit_layout(seq![b]));
                    assert(cur@ =~= cur0 + seq![b]);
                    lemma_parse_state_append(comps@, cur0, seq![b]);
                }
            },
            TemplateToken::Word(w) => {
                let pseudo = pseudo_byte(w);
                if let Some(pb) = pseudo {
                    let ghost cur0 = cur@;
                    cur.push(pb);
                    i = i + 1;
                    proof {
                        lemma_absorb_step(tokens@, i0, i0 + 1, done0, lit_layout(seq![pb]));
                        assert(cur@ =~= cur0 + seq![pb]);
                        lemma_parse_state_append(comps@, cur0, seq![pb]);
                    }
                } else {
                    match mnemonic(w) {
                        None => {
                            return Err(DefinitionError::UnknownMnemonic(w.clone()));
                        },
                        Some((prefix, is_relative)) => {
                            if i + 1 >= tokens.len() {
                                return Err(DefinitionError::MissingTarget(w.clone()));
                            }
                            let name = match &tokens[i + 1] {
                                TemplateToken::Word(n) => n.clone(),
                                TemplateToken::Byte(_) => {
                                    return Err(DefinitionError::MissingTarget(w.clone()));
                                },
                            };
                            let ghost head = field_layout(prefix@, is_relative, name@);
                            cur = push_placeholder(&mut comps, cur, prefix, is_relative, name);
                            i = i + 2;
                            proof {
                                lemma_absorb_step(tokens@, i0, i0 + 2, done0, head);
                            }
                        },
                    }
                }
            },
        }
    }
    let ghost pre_flush = parse_state_layout(comps@, cur@);
    let comps = {
        let mut comps = comps;
        let _ = flush_literals(&mut comps, cur);
        comps
    };
    proof {
        lemma_layout_cat_empty_right(pre_flush);
        assert(lit_layout(Seq::<u8>::empty()) =~= layout_empty());
        lemma_layout_cat_empty_right(spec_components_layout(comps@, 0));
    }
    Ok(comps)
}

/// The field descriptors that a compiled name table and placeholder table
/// denote, pairing each name with its placeholder's offset and relativity.
pub open spec fn spec_table_model(
    names: Seq<String>,
    placeholders: Seq<crate::patch::PatchPlaceholder>,
) -> Seq<FieldModel>
    recommends
        names.len() == placeholders.len(),
{
    Seq::new(
        names.len(),
        |k: int|
            FieldModel {
                name: names[k]@,
                offset: placeholders[k].offset as int,
                is_relative: placeholders[k].is_relative,
            },
    )
}

/// Lay out a parsed component sequence: the zero-initialized buffer bytes,
/// and, for each placeholder in declaration order, its name and its
/// descriptor (buffer offset past any opcode prefix, and relativity), with no
/// value bound yet.
pub fn compile_components(components: &Vec<PatchComponent>) -> (r: (
    Vec<u8>,
    Vec<String>,
    Vec<crate::patch::PatchPlaceholder>,
))
    requires
        spec_components_layout(components@, 0).bytes.len() <= usize::MAX,
    ensures
        ({
            let l = spec_components_layout(components@, 0);
            &&& r.0@ == l.bytes
            &&& r.1@.len() == l.fields.len()
            &&& r.2@.len() == l.fields.len()
            &&& spec_table_model(r.1@, r.2@) == l.fields
            &&& forall|k: int| 0 <= k < l.fields.len() ==> r.2@[k].value is None
        }),
{
    let ghost full = spec_components_layout(components@, 0);
    let mut buf: Vec<u8> = Vec::new();
    let mut names: Vec<String> = Vec::new();
    let mut placeholders: Vec<crate::patch::PatchPlaceholder> = Vec::new();
    let mut ci: usize = 0;
    proof {
        assert(spec_table_model(names@, placeholders@) =~= Seq::<FieldModel>::empty());
        lemma_layout_cat_empty_left(full);
        assert(TemplateLayout { bytes: buf@, fields: spec_table_model(names@, placeholders@) }
            =~= layout_empty());
    }
    while ci < components.len()
        invariant
            ci <= components@.len(),
            full == spec_components_layout(components@, 0),
            full.bytes.len() <= usize::MAX,
            names@.len() == placeholders@.len(),
            forall|k: int| 0 <= k < placeholders@.len() ==> placeholders@[k].value is None,
            full == layout_cat(
                TemplateLayout { bytes: buf@, fields: spec_table_model(names@, placeholders@) },
                spec_components_layout(components@, ci as int),
            ),
        decreases components@.len() - ci,
    {
        let ghost done0 = TemplateLayout {
            bytes: buf@,
            fields: spec_table_model(names@, placeholders@),
        };
        let ghost suffix0 = spec_components_layout(components@, ci as int);
        let ghost comp = components@[ci as int];
        let ghost suffix1 = spec_components_layout(components@, ci + 1);
        proof {
            assert(suffix0 == layout_cat(spec_component_layout(comp), suffix1));
            lemma_layout_cat_assoc(done0, spec_component_layout(comp), suffix1);
            assert(full.bytes.len() == done0.bytes.len() + suffix0.bytes.len());
        }
        match &components[ci] {
            PatchComponent::Bytes(b) => {
                buf.extend_from_slice(b.as_slice());
                proof {
                    assert(layout_cat(done0, spec_component_layout(comp)) =~= TemplateLayout {
                        bytes: buf@,
                        fields: spec_table_model(names@, placeholders@),
                    });
                }
            },
            PatchComponent::Rel32(p, n) => {
                proof {
                    assert(suffix0.bytes.len() >= p@.len() + 4);
                }
                let off = buf.len() + p.len();
                buf.extend_from_slice(p.as_slice());
                buf.push(0);
                buf.push(0);
                buf.push(0);
                buf.push(0);
                names.push(n.clone());
                placeholders.push(crate::patch::PatchPlaceholder::new(off, true));
                proof {
                    assert(buf@ =~= done0.bytes + (p@ + zero4()));
                    assert(spec_table_model(names@, placeholders@) =~= done0.fields + shift_fields(
                        seq![FieldModel { name: n@, offset: p@.len() as int, is_relative: true }],
                        done0.bytes.len() as int,
                    ));
                    assert(layout_cat(done0, spec_component_layout(comp)) =~= TemplateLayout {
                        bytes: buf@,
                        fields: spec_table_model(names@, placeholders@),
                    });
                }
            },
            PatchComponent::Imm32(n) => {
                proof {
                    assert(suffix0.bytes.len() >= 4);
                }
                let off = buf.len();
                buf.push(0);
                buf.push(0);
                buf.push(0);
                buf.push(0);
                names.push(n.clone());
                placeholders.push(crate::patch::PatchPlaceholder::new(off, false));
                proof {
                    assert(buf@ =~= done0.bytes + (Seq::<u8>::empty() + zero4()));
                    assert(spec_table_model(names@, placeholders@) =~= done0.fields + shift_fields(
                        seq![FieldModel { name: n@, offset: 0, is_relative: false }],
                        done0.bytes.len() as int,
                    ));
                    assert(layout_cat(done0, spec_component_layout(comp)) =~= TemplateLayout {
                        bytes: buf@,
                        fields: spec_table_model(names@, placeholders@),
                    });
                }
            },
        }
        ci = ci + 1;
    }
    proof {
        assert(spec_components_layout(components@, ci as int) == layout_empty());
        lemma_layout_cat_empty_right(
            TemplateLayout { bytes: buf@, fields: spec_table_model(names@, placeholders@) },
        );
    }
    (buf, names, placeholders)
}

} // verus!
