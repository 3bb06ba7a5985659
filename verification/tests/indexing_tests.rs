use shared_mempool::indexing::{payload_column, row_address, type_tag, ChangeKind, PayloadColumn};

#[test]
fn type_tags_per_change_kind() {
    assert_eq!(type_tag(ChangeKind::DeleteModule), "delete_module");
    assert_eq!(type_tag(ChangeKind::DeleteResource), "delete_resource");
    assert_eq!(type_tag(ChangeKind::DeleteTableItem), "delete_table_item");
    assert_eq!(type_tag(ChangeKind::WriteModule), "write_module");
    assert_eq!(type_tag(ChangeKind::WriteResource), "write_resource");
    assert_eq!(type_tag(ChangeKind::WriteTableItem), "write_table_item");
}

#[test]
fn payload_columns_per_change_kind() {
    assert_eq!(payload_column(ChangeKind::DeleteModule), PayloadColumn::Module);
    assert_eq!(payload_column(ChangeKind::DeleteResource), PayloadColumn::Resource);
    assert_eq!(payload_column(ChangeKind::DeleteTableItem), PayloadColumn::Data);
    assert_eq!(payload_column(ChangeKind::WriteModule), PayloadColumn::Data);
    assert_eq!(payload_column(ChangeKind::WriteResource), PayloadColumn::Data);
    assert_eq!(payload_column(ChangeKind::WriteTableItem), PayloadColumn::Data);
}

#[test]
fn table_item_rows_carry_no_address() {
    assert_eq!(
        row_address(ChangeKind::WriteModule, "0xa550c18".to_string()),
        Some("0xa550c18".to_string())
    );
    assert_eq!(
        row_address(ChangeKind::DeleteResource, "0xa550c18".to_string()),
        Some("0xa550c18".to_string())
    );
    assert_eq!(row_address(ChangeKind::DeleteTableItem, "0xa550c18".to_string()), None);
    assert_eq!(row_address(ChangeKind::WriteTableItem, "0xa550c18".to_string()), None);
}
