use solar_sema::storage_layout::{
    layout_members, slots_for, storage_bytes, storage_layout, ElementaryType, StorageCursor,
    StorageField, StorageType, StorageVariable,
};
use solar_sema::storage_layout::{storage_encoding, storage_layout_type, StorageEncoding};
use solar_sema::word::Word;

fn field(ast_id: u64, label: &str, type_key: &str, ty: StorageType) -> StorageField {
    StorageField { ast_id, label: label.to_string(), type_key: type_key.to_string(), ty }
}

fn variable(field: StorageField) -> StorageVariable {
    StorageVariable { field, is_constant: false, is_immutable: false, is_transient: false }
}

fn uint(bytes: u8) -> StorageType {
    StorageType::Elementary(ElementaryType::UInt(bytes))
}

fn bytes_of(ty: &StorageType) -> u64 {
    storage_bytes(ty).to_u64()
}

#[test]
fn storage_sizes_of_types() {
    assert_eq!(bytes_of(&uint(32)), 32);
    assert_eq!(bytes_of(&StorageType::Elementary(ElementaryType::Address)), 20);
    assert_eq!(bytes_of(&StorageType::Elementary(ElementaryType::Bool)), 1);
    assert_eq!(bytes_of(&StorageType::Elementary(ElementaryType::String)), 32);
    assert_eq!(bytes_of(&StorageType::Mapping(Box::new(uint(32)), Box::new(uint(32)))), 32);
    assert_eq!(bytes_of(&StorageType::Function { external: true }), 24);
    assert_eq!(bytes_of(&StorageType::Function { external: false }), 8);
    assert_eq!(bytes_of(&StorageType::Array(Box::new(uint(16)), Word::from_u64(3))), 64);
    assert_eq!(bytes_of(&StorageType::Array(Box::new(uint(1)), Word::from_u64(0))), 32);
    assert_eq!(bytes_of(&StorageType::Array(Box::new(StorageType::Elementary(ElementaryType::String)), Word::from_u64(2))), 64);
    let strukt = StorageType::Struct(vec![
        field(1, "a", "t_uint128", uint(16)),
        field(2, "b", "t_uint256", uint(32)),
        field(3, "c", "t_bool", StorageType::Elementary(ElementaryType::Bool)),
    ]);
    assert_eq!(bytes_of(&strukt), 96);
    assert_eq!(bytes_of(&StorageType::Ref(Box::new(strukt))), 96);
}

#[test]
fn members_pack_into_slots() {
    let fields = vec![
        field(1, "a", "t_uint128", uint(16)),
        field(2, "b", "t_uint64", uint(8)),
        field(3, "c", "t_uint128", uint(16)),
        field(4, "d", "t_uint256", uint(32)),
    ];
    let (members, size) = layout_members(&fields, "test.sol:S");
    let placed: Vec<(String, u64)> = members.iter().map(|m| (m.slot.clone(), m.offset)).collect();
    assert_eq!(placed, [("0".to_string(), 0), ("0".to_string(), 16), ("1".to_string(), 0), ("2".to_string(), 0)]);
    assert_eq!(size.to_u64(), 96);
    assert_eq!(members[1].label, "b");
    assert_eq!(members[1].contract, "test.sol:S");
    assert_eq!(members[3].type_key, "t_uint256");
    assert_eq!(members[2].ast_id, 3);
}

#[test]
fn base_contract_variables_come_first() {
    let derived = vec![
        variable(field(10, "x", "t_uint128", uint(16))),
        StorageVariable { field: field(11, "k", "t_uint256", uint(32)), is_constant: true, is_immutable: false, is_transient: false },
        StorageVariable { field: field(12, "t", "t_uint256", uint(32)), is_constant: false, is_immutable: false, is_transient: true },
    ];
    let base = vec![variable(field(20, "y", "t_uint128", uint(16))), variable(field(21, "s", "t_string_storage", StorageType::Elementary(ElementaryType::String)))];
    let storage = storage_layout(Word::from_u64(5), &[derived, base], "C", false);
    let placed: Vec<(&str, String, u64)> = storage.iter().map(|e| (e.label.as_str(), e.slot.clone(), e.offset)).collect();
    assert_eq!(placed, [("y", "5".to_string(), 0), ("s", "6".to_string(), 0), ("x", "7".to_string(), 0)]);

    let transient = vec![StorageVariable { field: field(12, "t", "t_uint256", uint(32)), is_constant: false, is_immutable: false, is_transient: true }];
    let layout = storage_layout(Word::zero(), &[transient], "C", true);
    assert_eq!(layout.len(), 1);
    assert_eq!(layout[0].slot, "0");
}

#[test]
fn cursor_aligns_and_sizes() {
    let mut cursor = StorageCursor::new(Word::from_u64(2));
    assert_eq!(cursor.size().to_u64(), 64);
    cursor.align();
    assert_eq!(cursor.slot().to_u64(), 2);
    cursor.advance(Word::from_u64(3));
    assert_eq!(cursor.slot().to_u64(), 5);
    assert_eq!(cursor.offset(), 0);
    assert_eq!(slots_for(Word::from_u64(33)).to_u64(), 2);
    assert_eq!(slots_for(Word::from_u64(64)).to_u64(), 2);
    assert_eq!(slots_for(Word::from_u64(0)).to_u64(), 0);
}

#[test]
fn slots_are_printed_in_decimal_past_sixty_four_bits() {
    let high = Word { limb0: 0, limb1: 1, limb2: 0, limb3: 0 };
    let storage = storage_layout(high, &[vec![variable(field(1, "v", "t_uint256", uint(32)))]], "C", false);
    assert_eq!(storage[0].slot, "18446744073709551616");
}

#[test]
fn type_table_entries_describe_encodings_and_members() {
    let mapping = StorageType::Mapping(Box::new(StorageType::Elementary(ElementaryType::Address)), Box::new(uint(32)));
    assert_eq!(storage_encoding(&mapping), StorageEncoding::Mapping);
    assert_eq!(storage_encoding(&StorageType::DynArray(Box::new(uint(32)))), StorageEncoding::DynamicArray);
    assert_eq!(storage_encoding(&StorageType::Ref(Box::new(StorageType::Elementary(ElementaryType::String)))), StorageEncoding::Bytes);
    assert_eq!(storage_encoding(&uint(4)), StorageEncoding::Inplace);

    let info = storage_layout_type(&mapping, "mapping(address => uint256)".to_string(), None, Some("t_address".to_string()), Some("t_uint256".to_string()), "C");
    assert_eq!(info.encoding, StorageEncoding::Mapping);
    assert_eq!(info.number_of_bytes, "32");
    assert_eq!(info.key.as_deref(), Some("t_address"));
    assert!(info.members.is_empty());

    let strukt = StorageType::Ref(Box::new(StorageType::Struct(vec![field(1, "a", "t_bool", StorageType::Elementary(ElementaryType::Bool)), field(2, "b", "t_address", StorageType::Elementary(ElementaryType::Address))])));
    let info = storage_layout_type(&strukt, "struct S".to_string(), None, None, None, "C");
    assert_eq!(info.number_of_bytes, "32");
    assert_eq!(info.members.len(), 2);
    assert_eq!((info.members[1].slot.as_str(), info.members[1].offset), ("0", 1));
    assert_eq!(StorageEncoding::default(), StorageEncoding::Inplace);
}
