//! Plain-value core of the downstream indexing consumer: which row
//! fields each kind of ledger write-set change carries. Indexing is a
//! pure consumer of commit notifications — it never influences admission
//! or broadcast — and the JSON payloads and wall-clock stamps stay with
//! the caller; only the per-kind field layout is decided here.

use vstd::prelude::*;

verus! {

/// The six kinds of write-set change a committed transaction carries.
#[derive(Clone, Copy, Debug, PartialEq, Eq, Structural)]
pub enum ChangeKind {
    DeleteModule,
    DeleteResource,
    DeleteTableItem,
    WriteModule,
    WriteResource,
    WriteTableItem,
}

/// Which JSON column of the row receives the change's payload.
#[derive(Clone, Copy, Debug, PartialEq, Eq, Structural)]
pub enum PayloadColumn {
    Module,
    Resource,
    Data,
}

/// The column that carries the payload, per kind: a deleted module's
/// identifier goes to the module column, a deleted resource's to the
/// resource column, everything else to the data column.
pub open spec fn payload_column_spec(kind: ChangeKind) -> PayloadColumn {
    match kind {
        ChangeKind::DeleteModule => PayloadColumn::Module,
        ChangeKind::DeleteResource => PayloadColumn::Resource,
        ChangeKind::DeleteTableItem => PayloadColumn::Data,
        ChangeKind::WriteModule => PayloadColumn::Data,
        ChangeKind::WriteResource => PayloadColumn::Data,
        ChangeKind::WriteTableItem => PayloadColumn::Data,
    }
}

pub fn payload_column(kind: ChangeKind) -> (r: PayloadColumn)
    ensures
        r == payload_column_spec(kind),
{
    match kind {
        ChangeKind::DeleteModule => PayloadColumn::Module,
        ChangeKind::DeleteResource => PayloadColumn::Resource,
        ChangeKind::DeleteTableItem => PayloadColumn::Data,
        ChangeKind::WriteModule => PayloadColumn::Data,
        ChangeKind::WriteResource => PayloadColumn::Data,
        ChangeKind::WriteTableItem => PayloadColumn::Data,
    }
}

/// Table-item changes carry no account address in their row; every other
/// kind keeps the change's address.
pub open spec fn keeps_address(kind: ChangeKind) -> bool {
    kind != ChangeKind::DeleteTableItem && kind != ChangeKind::WriteTableItem
}

/// The row's address column: the change's own address, or nothing for a
/// table-item change.
pub fn row_address(kind: ChangeKind, address: String) -> (r: Option<String>)
    ensures
        keeps_address(kind) ==> r == Some(address),
        !keeps_address(kind) ==> r == None::<String>,
{
    match kind {
        ChangeKind::DeleteTableItem => None,
        ChangeKind::WriteTableItem => None,
        _ => Some(address),
    }
}

/// The row's type tag, per kind.
pub open spec fn type_tag_spec(kind: ChangeKind) -> Seq<char> {
    match kind {
        ChangeKind::DeleteModule => "delete_module"@,
        ChangeKind::DeleteResource => "delete_resource"@,
        ChangeKind::DeleteTableItem => "delete_table_item"@,
        ChangeKind::WriteModule => "write_module"@,
        ChangeKind::WriteResource => "write_resource"@,
        ChangeKind::WriteTableItem => "write_table_item"@,
    }
}

pub fn type_tag(kind: ChangeKind) -> (r: &'static str)
    ensures
        r@ == type_tag_spec(kind),
{
    match kind {
        ChangeKind::DeleteModule => "delete_module",
        ChangeKind::DeleteResource => "delete_resource",
        ChangeKind::DeleteTableItem => "delete_table_item",
        ChangeKind::WriteModule => "write_module",
        ChangeKind::WriteResource => "write_resource",
        ChangeKind::WriteTableItem => "write_table_item",
    }
}

} // verus!
