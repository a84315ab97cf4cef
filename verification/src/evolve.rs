//! Tables in step with their schemas: when nothing is left to migrate.

use vstd::prelude::*;

use crate::dialect::{alter_of, drop_of, fresh_of, gone_of, moved_in, moved_of, named, present, rename_line, Dialect};
use crate::spec::{is_many, Schema};
use crate::value::{Column, ColumnKind};

verus! {

/// Every stored field of the schema has a column.
pub open spec fn all_present(fields: Seq<crate::spec::Field>, have: Seq<Column>) -> bool {
    forall|i: int| 0 <= i < fields.len() ==> (#[trigger] fields[i]).kind is Id || is_many(fields[i].kind)
        || present(have, fields[i].name@)
}

/// Every column but `id` is some field's.
pub open spec fn all_named(fields: Seq<crate::spec::Field>, have: Seq<Column>) -> bool {
    forall|j: int| 0 <= j < have.len() ==> (#[trigger] have[j]).name@ == "id"@ || named(fields, have[j].name@)
}

proof fn gone_none(fields: Seq<crate::spec::Field>, have: Seq<Column>, k: ColumnKind)
    requires
        all_named(fields, have),
    ensures
        gone_of(fields, have, k).len() == 0,
    decreases have.len(),
{
    if have.len() > 0 {
        assert(all_named(fields, have.drop_last())) by {
            assert forall|j: int| 0 <= j < have.drop_last().len() implies (#[trigger] have.drop_last()[j]).name@ == "id"@
                || named(fields, have.drop_last()[j].name@) by {
                assert(have.drop_last()[j] == have[j]);
            }
        }
        gone_none(fields, have.drop_last(), k);
        assert(have.last() == have[have.len() - 1]);
    }
}

proof fn fresh_none(fields: Seq<crate::spec::Field>, have: Seq<Column>, k: ColumnKind)
    requires
        all_present(fields, have),
    ensures
        fresh_of(fields, have, k).len() == 0,
    decreases fields.len(),
{
    if fields.len() > 0 {
        assert(all_present(fields.drop_last(), have)) by {
            assert forall|i: int| 0 <= i < fields.drop_last().len() implies (#[trigger] fields.drop_last()[i]).kind is Id
                || is_many(fields.drop_last()[i].kind) || present(have, fields.drop_last()[i].name@) by {
                assert(fields.drop_last()[i] == fields[i]);
            }
        }
        fresh_none(fields.drop_last(), have, k);
        assert(fields.last() == fields[fields.len() - 1]);
    }
}

proof fn alter_none(d: Dialect, table: Seq<char>, fields: Seq<crate::spec::Field>, upto: Seq<crate::spec::Field>, have: Seq<Column>)
    requires
        all_present(upto, have),
    ensures
        alter_of(d, table, fields, upto, have).len() == 0,
    decreases upto.len(),
{
    if upto.len() > 0 {
        assert(all_present(upto.drop_last(), have)) by {
            assert forall|i: int| 0 <= i < upto.drop_last().len() implies (#[trigger] upto.drop_last()[i]).kind is Id
                || is_many(upto.drop_last()[i].kind) || present(have, upto.drop_last()[i].name@) by {
                assert(upto.drop_last()[i] == upto[i]);
            }
        }
        alter_none(d, table, fields, upto.drop_last(), have);
        assert(upto.last() == upto[upto.len() - 1]);
    }
}

proof fn drop_none(table: Seq<char>, fields: Seq<crate::spec::Field>, have: Seq<Column>, upto: Seq<Column>)
    requires
        all_named(fields, upto),
    ensures
        drop_of(table, fields, have, upto).len() == 0,
    decreases upto.len(),
{
    if upto.len() > 0 {
        assert(all_named(fields, upto.drop_last())) by {
            assert forall|j: int| 0 <= j < upto.drop_last().len() implies (#[trigger] upto.drop_last()[j]).name@ == "id"@
                || named(fields, upto.drop_last()[j].name@) by {
                assert(upto.drop_last()[j] == upto[j]);
            }
        }
        drop_none(table, fields, have, upto.drop_last());
        assert(upto.last() == upto[upto.len() - 1]);
    }
}

/// A table already in step with its schema needs no migration: when every stored field has a
/// column and every column but `id` is a field's, there is nothing to rename, add or drop, so
/// migrating it again runs nothing.
pub proof fn settled_needs_nothing(d: Dialect, schema: Schema, have: Seq<Column>, trim: bool)
    requires
        all_present(schema.fields@, have),
        all_named(schema.fields@, have),
    ensures
        moved_of(schema.fields@, have).map_values(|p: (Seq<char>, Seq<char>)| rename_line(schema.table@, p))
            + alter_of(d, schema.table@, schema.fields@, schema.fields@, have)
            + (if trim { drop_of(schema.table@, schema.fields@, have, have) } else { Seq::empty() })
            == Seq::<Seq<char>>::empty(),
{
    let f = schema.fields@;
    gone_none(f, have, ColumnKind::Integer);
    gone_none(f, have, ColumnKind::Real);
    gone_none(f, have, ColumnKind::Text);
    assert(moved_in(f, have, ColumnKind::Integer).len() == 0);
    assert(moved_in(f, have, ColumnKind::Real).len() == 0);
    assert(moved_in(f, have, ColumnKind::Text).len() == 0);
    assert(moved_of(f, have).len() == 0);
    alter_none(d, schema.table@, f, f, have);
    drop_none(schema.table@, f, have, have);
    let all = moved_of(f, have).map_values(|p: (Seq<char>, Seq<char>)| rename_line(schema.table@, p))
        + alter_of(d, schema.table@, f, f, have)
        + (if trim { drop_of(schema.table@, f, have, have) } else { Seq::empty() });
    assert(all.len() == 0);
    assert(all =~= Seq::<Seq<char>>::empty());
}

} // verus!
