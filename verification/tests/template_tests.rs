use hook86::patch::Patch;
use hook86::template::{DefinitionError, TemplateToken};

fn byte(b: u8) -> TemplateToken {
    TemplateToken::Byte(b)
}

fn word(w: &str) -> TemplateToken {
    TemplateToken::Word(w.to_string())
}

/// The worked template: `sub eax, ebx; cmp ah, 4; jz equal; jmp other; push value`.
fn example_template() -> Vec<TemplateToken> {
    vec![
        byte(0x29),
        byte(0xD8),
        byte(0x38),
        byte(0xF4),
        byte(0x04),
        word("jz"),
        word("equal"),
        word("jmp"),
        word("other"),
        word("push"),
        word("value"),
    ]
}

#[test]
fn template_compiles_to_fixed_layout() {
    let patch = Patch::parse(&example_template()).unwrap();
    // 2 + 3 literal bytes, a six-byte jz, a five-byte jmp, a five-byte push
    assert_eq!(patch.buf().len(), 21);
    assert_eq!(
        patch.buf(),
        [
            0x29, 0xD8, 0x38, 0xF4, 0x04, // literals
            0x0F, 0x84, 0, 0, 0, 0, // jz equal
            0xE9, 0, 0, 0, 0, // jmp other
            0x68, 0, 0, 0, 0, // push value
        ]
    );
    assert_eq!(patch.names.len(), 3);
    assert_eq!(patch.names[0], "equal");
    assert_eq!(patch.names[1], "other");
    assert_eq!(patch.names[2], "value");
    // each field offset points at the four-byte field, past the opcode prefix
    assert_eq!(patch.placeholders[0].offset, 7);
    assert!(patch.placeholders[0].is_relative);
    assert_eq!(patch.placeholders[1].offset, 12);
    assert!(patch.placeholders[1].is_relative);
    assert_eq!(patch.placeholders[2].offset, 17);
    assert!(!patch.placeholders[2].is_relative);
    assert_eq!(patch.placeholders[0].value, None);
}

#[test]
fn bind_writes_every_placeholder() {
    let mut patch = Patch::parse(&example_template()).unwrap();
    patch.bind_values(0x80000000, &vec![0x80000010, 0x80000080, 1234]);
    let buf = patch.buf();
    // push value: 1234 = 0x04D2 little-endian, behind the 0x68 opcode at the tail
    assert_eq!(buf[buf.len() - 5..], [0x68, 0xD2, 0x04, 0x00, 0x00]);
    // jz equal: displacement from the end of the field at 7..11
    // 0x80000010 - (0x80000000 + 7 + 4) = 5
    assert_eq!(buf[5..11], [0x0F, 0x84, 0x05, 0x00, 0x00, 0x00]);
    // jmp other: 0x80000080 - (0x80000000 + 12 + 4) = 0x70
    assert_eq!(buf[11..16], [0xE9, 0x70, 0x00, 0x00, 0x00]);
    // literals are untouched
    assert_eq!(buf[..5], [0x29, 0xD8, 0x38, 0xF4, 0x04]);
    assert_eq!(patch.placeholders[2].value, Some(1234));
}

#[test]
fn rebind_overwrites_idempotently() {
    let mut patch = Patch::parse(&example_template()).unwrap();
    patch.bind_values(0x80000000, &vec![0x80000010, 0x80000080, 1234]);
    let first: Vec<u8> = patch.buf().to_vec();
    patch.bind_values(0x80000000, &vec![0x80000010, 0x80000080, 1234]);
    assert_eq!(patch.buf(), first.as_slice());
}

#[test]
fn relative_displacement_wraps_around() {
    // rel32 field at offset 0; target far below the buffer address
    let mut patch = Patch::parse(&vec![word("rel32"), word("t")]).unwrap();
    patch.bind_values(0xFFFFFFF0, &vec![0x00000004]);
    // 0x00000004 - (0xFFFFFFF0 + 0 + 4) = 0x10 with 32-bit wraparound
    assert_eq!(patch.buf(), [0x10, 0x00, 0x00, 0x00]);
}

#[test]
fn bare_field_kinds() {
    let patch = Patch::parse(&vec![word("imm32"), word("a"), word("rel32"), word("b")]).unwrap();
    assert_eq!(patch.buf(), [0, 0, 0, 0, 0, 0, 0, 0]);
    assert_eq!(patch.placeholders[0].offset, 0);
    assert!(!patch.placeholders[0].is_relative);
    assert_eq!(patch.placeholders[1].offset, 4);
    assert!(patch.placeholders[1].is_relative);
}

#[test]
fn pseudo_instructions_expand_to_literal_bytes() {
    let patch = Patch::parse(&vec![word("pushad"), word("ret"), word("popad"), word("retn")])
        .unwrap();
    assert_eq!(patch.buf(), [0x60, 0xC3, 0x61, 0xC3]);
    assert_eq!(patch.names.len(), 0);
}

#[test]
fn mnemonic_aliases_share_an_opcode() {
    let a = Patch::parse(&vec![word("jz"), word("x")]).unwrap();
    let b = Patch::parse(&vec![word("je"), word("x")]).unwrap();
    assert_eq!(a.buf(), b.buf());
    let a = Patch::parse(&vec![word("jl"), word("x")]).unwrap();
    let b = Patch::parse(&vec![word("jnge"), word("x")]).unwrap();
    assert_eq!(a.buf(), b.buf());
    let a = Patch::parse(&vec![word("jae"), word("x")]).unwrap();
    let b = Patch::parse(&vec![word("jnc"), word("x")]).unwrap();
    assert_eq!(a.buf(), b.buf());
}

#[test]
fn all_conditional_jumps_emit_their_condition_byte() {
    let cases: Vec<(&str, u8)> = vec![
        ("jo", 0x80),
        ("jno", 0x81),
        ("jb", 0x82),
        ("jae", 0x83),
        ("jz", 0x84),
        ("jne", 0x85),
        ("jbe", 0x86),
        ("ja", 0x87),
        ("js", 0x88),
        ("jns", 0x89),
        ("jp", 0x8A),
        ("jnp", 0x8B),
        ("jl", 0x8C),
        ("jge", 0x8D),
        ("jle", 0x8E),
        ("jg", 0x8F),
    ];
    for (mnem, cond) in cases {
        let patch = Patch::parse(&vec![word(mnem), word("x")]).unwrap();
        assert_eq!(patch.buf(), [0x0F, cond, 0, 0, 0, 0], "mnemonic {}", mnem);
    }
}

#[test]
fn unknown_mnemonic_is_rejected() {
    let err = Patch::parse(&vec![word("mov"), word("x")]).unwrap_err();
    assert_eq!(err, DefinitionError::UnknownMnemonic("mov".to_string()));
}

#[test]
fn missing_target_is_rejected() {
    let err = Patch::parse(&vec![byte(0x90), word("call")]).unwrap_err();
    assert_eq!(err, DefinitionError::MissingTarget("call".to_string()));
    let err = Patch::parse(&vec![word("call"), byte(0x90)]).unwrap_err();
    assert_eq!(err, DefinitionError::MissingTarget("call".to_string()));
}

#[test]
fn duplicate_placeholder_name_is_rejected() {
    let err = Patch::parse(&vec![word("jz"), word("foo"), word("jmp"), word("foo")]).unwrap_err();
    assert_eq!(err, DefinitionError::DuplicateName("foo".to_string()));
}

#[test]
fn bound_call_template_redirects_to_its_target() {
    // template of one call; bound at a buffer address, it must decode back to
    // the bound target
    let mut patch = Patch::parse(&vec![word("call"), word("t")]).unwrap();
    patch.bind_values(0x00401000, &vec![0x00402000]);
    let mut bytes = patch.buf().to_vec();
    bytes.push(0x90);
    assert_eq!(hook86::branch::get_branch_target(0x00401000, &bytes), Ok(0x00402000));
}

#[test]
fn empty_template_compiles_empty() {
    let patch = Patch::parse(&vec![]).unwrap();
    assert_eq!(patch.buf().len(), 0);
    assert_eq!(patch.names.len(), 0);
}
