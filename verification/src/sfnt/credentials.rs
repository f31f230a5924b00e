//! What adding, reading, updating and removing the C2PA record of a font
//! do together.

use crate::c2pa::{spec_version_error, ContentCredentialRecord, UpdateContentCredentialRecord, UpdateType};
use crate::sfnt::font::{
    c2pa_key, spec_get_c2pa, spec_record_table, spec_updated_tables,
};
use crate::error::FontIoError;
use crate::sfnt::table::c2pa::{spec_empty_c2pa, spec_updated_c2pa, C2PAView};
use crate::sfnt::table::named_table::NamedTable;
use vstd::prelude::*;

verus! {

/// Reading the record of a font to which `record` was just added gives
/// `record` back, or the error for its version where that version is not
/// supported.
pub proof fn law_get_after_add(tables: Map<u32, NamedTable>, record: ContentCredentialRecord)
    requires
        !tables.contains_key(c2pa_key()),
    ensures
        spec_get_c2pa(tables.insert(c2pa_key(), NamedTable::C2PA(spec_record_table(record))))
            == match spec_version_error(record.major_version, record.minor_version) {
            Some(e) => Err::<Option<C2PAView>, FontIoError>(e),
            None => Ok(Some(record@)),
        },
{
}

/// Removing the record that was just added gives the tables back as they
/// were.
pub proof fn law_remove_after_add(tables: Map<u32, NamedTable>, record: ContentCredentialRecord)
    requires
        !tables.contains_key(c2pa_key()),
    ensures
        tables.insert(c2pa_key(), NamedTable::C2PA(spec_record_table(record))).remove(c2pa_key())
            == tables,
{
    assert(tables.insert(c2pa_key(), NamedTable::C2PA(spec_record_table(record))).remove(
        c2pa_key(),
    ) =~= tables);
}

/// A font whose record was removed has no record to read.
pub proof fn law_get_after_remove(tables: Map<u32, NamedTable>)
    ensures
        spec_get_c2pa(tables.remove(c2pa_key())) == Ok::<Option<C2PAView>, FontIoError>(None),
{
}

/// Reading the record after an update gives the old record with the URI
/// and the store changed as asked and the versions kept (an empty record
/// of version 0.1 where there was none); a font whose C2PA tag names a
/// table of another kind is left as it was.
pub proof fn law_get_after_update(tables: Map<u32, NamedTable>, update: UpdateContentCredentialRecord)
    ensures
        match tables.get(c2pa_key()) {
            Some(NamedTable::C2PA(t)) => spec_get_c2pa(spec_updated_tables(tables, update))
                == match spec_version_error(t.major_version, t.minor_version) {
                Some(e) => Err::<Option<C2PAView>, FontIoError>(e),
                None => Ok(Some(spec_updated_c2pa(t, update)@)),
            },
            Some(_) => spec_updated_tables(tables, update) == tables,
            None => spec_get_c2pa(spec_updated_tables(tables, update)) == Ok::<Option<C2PAView>, FontIoError>(
                Some(spec_updated_c2pa(spec_empty_c2pa(), update)@),
            ),
        },
{
}

/// An update that asks for no change leaves a font that holds a table
/// under the C2PA tag as it was.
pub proof fn law_empty_update_keeps(tables: Map<u32, NamedTable>, update: UpdateContentCredentialRecord)
    requires
        tables.contains_key(c2pa_key()),
        update.active_manifest_uri is None,
        update.content_credential is None,
    ensures
        spec_updated_tables(tables, update) == tables,
{
    if let Some(NamedTable::C2PA(t)) = tables.get(c2pa_key()) {
        assert(spec_updated_c2pa(t, update) == t);
        assert(tables.insert(c2pa_key(), NamedTable::C2PA(t)) =~= tables);
    }
}

/// Adding, updating and removing the record touch no table but the one
/// under the C2PA tag.
pub proof fn law_c2pa_changes_only_c2pa(
    tables: Map<u32, NamedTable>,
    record: ContentCredentialRecord,
    update: UpdateContentCredentialRecord,
    k: u32,
)
    requires
        k != c2pa_key(),
    ensures
        tables.insert(c2pa_key(), NamedTable::C2PA(spec_record_table(record))).get(k) == tables.get(k),
        spec_updated_tables(tables, update).get(k) == tables.get(k),
        tables.remove(c2pa_key()).get(k) == tables.get(k),
{
}

/// Updating the record of a font that has a C2PA table, or none, leaves a
/// C2PA table whose URI and store are exactly what the update asks: a value
/// that it sets is the value, whatever the table held before; one that it
/// removes is gone; one that it leaves alone is as it was, or absent where
/// there was no table. The versions stay, or are 0.1 in a new table.
pub proof fn law_update_sets_fields(tables: Map<u32, NamedTable>, update: UpdateContentCredentialRecord)
    requires
        tables.contains_key(c2pa_key()) ==> tables[c2pa_key()] is C2PA,
    ensures
        spec_updated_tables(tables, update).contains_key(c2pa_key()),
        spec_updated_tables(tables, update)[c2pa_key()] matches NamedTable::C2PA(c) && {
            &&& update.content_credential matches Some(UpdateType::Update(v)) ==> c.manifest_store
                == Some(v)
            &&& update.content_credential matches Some(UpdateType::Remove) ==> c.manifest_store is None
            &&& update.active_manifest_uri matches Some(UpdateType::Update(u)) ==> c.active_manifest_uri
                == Some(u)
            &&& update.active_manifest_uri matches Some(UpdateType::Remove) ==> c.active_manifest_uri is None
            &&& tables.get(c2pa_key()) matches Some(NamedTable::C2PA(t)) ==> {
                &&& c.major_version == t.major_version
                &&& c.minor_version == t.minor_version
                &&& update.content_credential is None ==> c.manifest_store == t.manifest_store
                &&& update.active_manifest_uri is None ==> c.active_manifest_uri == t.active_manifest_uri
            }
            &&& !tables.contains_key(c2pa_key()) ==> {
                &&& c.major_version == 0
                &&& c.minor_version == 1
                &&& update.content_credential is None ==> c.manifest_store is None
                &&& update.active_manifest_uri is None ==> c.active_manifest_uri is None
            }
        },
{
}

/// Reading the record of a font without one, after an update that sets the
/// store, gives a record of version 0.1 with that store.
pub proof fn law_get_after_setting_store(
    tables: Map<u32, NamedTable>,
    update: UpdateContentCredentialRecord,
    v: Vec<u8>,
)
    requires
        !tables.contains_key(c2pa_key()),
        update.content_credential == Some(UpdateType::Update(v)),
    ensures
        spec_get_c2pa(spec_updated_tables(tables, update)) matches Ok(Some(view)) && view.0 == 0
            && view.1 == 1 && view.3 == Some(v@),
{
}

} // verus!
