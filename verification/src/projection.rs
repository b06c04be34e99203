//! Typed projection fields: an output alias, the source column it is read
//! from and its database type.
use std::marker::PhantomData;

use vstd::prelude::*;

use crate::ast::{ColumnRef, DbType, Expr, SelectItem};
use crate::error::Error;
use crate::text::owned;

verus! {

/// A projected field: its alias, the column it is read from (the alias
/// itself unless given) and its type.
#[derive(Clone, Copy, Debug)]
pub struct ProjectionFieldInfo {
    pub alias: &'static str,
    pub source_column: Option<&'static str>,
    pub db_type: DbType,
}

/// The column a field reads: its source column, else its alias.
pub open spec fn source_of(info: ProjectionFieldInfo) -> Seq<char> {
    match info.source_column {
        Some(c) => c@,
        None => info.alias@,
    }
}

/// `table.source AS alias`, typed.
pub open spec fn selects_field(item: SelectItem, info: ProjectionFieldInfo, table: Seq<char>) -> bool {
    &&& item.alias is None
    &&& item.expr matches Expr::Column(c)
    &&& c.table matches Some(t) && t@ == table
    &&& c.name@ == source_of(info)
    &&& c.alias matches Some(a) && a@ == info.alias@
    &&& c.db_type == Some(info.db_type)
}

impl ProjectionFieldInfo {
    /// A field read from the column of its own name.
    pub fn new(alias: &'static str, db_type: DbType) -> (r: Self)
        ensures
            r.alias == alias,
            r.source_column == Some(alias),
            r.db_type == db_type,
    {
        ProjectionFieldInfo { alias, source_column: Some(alias), db_type }
    }

    /// A field read from another column.
    pub fn from_source(alias: &'static str, source_column: &'static str, db_type: DbType) -> (r: Self)
        ensures
            r.alias == alias,
            r.source_column == Some(source_column),
            r.db_type == db_type,
    {
        ProjectionFieldInfo { alias, source_column: Some(source_column), db_type }
    }

    /// The select item that reads the field from a table alias.
    pub fn select_from(self, table_alias: &str) -> (r: Result<SelectItem, Error>)
        ensures
            r matches Ok(item) && selects_field(item, self, table_alias@),
    {
        let source = match self.source_column {
            Some(c) => c,
            None => self.alias,
        };
        let column = ColumnRef::new(table_alias, source).typed(self.db_type).aliased(self.alias);
        Ok(SelectItem { expr: Expr::Column(column), alias: None })
    }
}

/// The select items that read every field of a projection from a table
/// alias, in field order.
pub fn source_select_items(fields: &[ProjectionFieldInfo], table_alias: &str) -> (r: Result<Vec<SelectItem>, Error>)
    ensures
        r matches Ok(items) && items@.len() == fields@.len() && forall|i: int| 0 <= i < fields@.len() ==> selects_field(
            #[trigger] items@[i],
            fields@[i],
            table_alias@,
        ),
{
    let mut items: Vec<SelectItem> = Vec::new();
    let mut i: usize = 0;
    while i < fields.len()
        invariant
            i <= fields@.len(),
            items@.len() == i,
            forall|j: int| 0 <= j < i ==> selects_field(#[trigger] items@[j], fields@[j], table_alias@),
        decreases fields@.len() - i,
    {
        let item = fields[i].select_from(table_alias)?;
        items.push(item);
        i = i + 1;
    }
    Ok(items)
}

/// A field of projection `P` decoded as `T`.
#[derive(Debug)]
pub struct ProjectionField<P, T> {
    pub info: ProjectionFieldInfo,
    pub marker: PhantomData<(P, T)>,
}

impl<P, T> ProjectionField<P, T> {
    /// A field read from the column of its own name.
    pub fn new(alias: &'static str, db_type: DbType) -> (r: Self)
        ensures
            r.info.alias == alias,
            r.info.source_column == Some(alias),
            r.info.db_type == db_type,
    {
        ProjectionField { info: ProjectionFieldInfo::new(alias, db_type), marker: PhantomData }
    }

    /// A field read from another column.
    pub fn from_source(alias: &'static str, source_column: &'static str, db_type: DbType) -> (r: Self)
        ensures
            r.info.alias == alias,
            r.info.source_column == Some(source_column),
            r.info.db_type == db_type,
    {
        ProjectionField { info: ProjectionFieldInfo::from_source(alias, source_column, db_type), marker: PhantomData }
    }

    pub fn info(&self) -> (r: ProjectionFieldInfo)
        ensures
            r == self.info,
    {
        self.info
    }

    pub fn alias(&self) -> (r: &'static str)
        ensures
            r == self.info.alias,
    {
        self.info.alias
    }

    pub fn db_type(&self) -> (r: DbType)
        ensures
            r == self.info.db_type,
    {
        self.info.db_type
    }

    /// The field as a bare column of its alias, typed.
    pub fn column_ref(&self) -> (c: ColumnRef)
        ensures
            c.table is None,
            c.name@ == self.info.alias@,
            c.alias is None,
            c.db_type == Some(self.info.db_type),
    {
        ColumnRef::bare(self.alias()).typed(self.db_type())
    }

    /// The field's source column on a table alias, typed.
    pub fn column_ref_from(&self, table_alias: &str) -> (c: ColumnRef)
        ensures
            c.table matches Some(t) && t@ == table_alias@,
            c.name@ == source_of(self.info),
            c.alias is None,
            c.db_type == Some(self.info.db_type),
    {
        let source = match self.info.source_column {
            Some(c) => c,
            None => self.alias(),
        };
        ColumnRef::new(table_alias, source).typed(self.db_type())
    }

    /// An expression projected under the field's alias.
    pub fn select<E: Into<Expr>>(&self, expr: E) -> (s: SelectItem)
        ensures
            call_ensures(E::into, (expr,), s.expr),
            s.alias matches Some(a) && a@ == self.info.alias@,
    {
        SelectItem::new(expr).aliased(self.alias())
    }

    /// The select item that reads the field from a table alias.
    pub fn select_from(&self, table_alias: &str) -> (r: Result<SelectItem, Error>)
        ensures
            r matches Ok(item) && selects_field(item, self.info, table_alias@),
    {
        self.info.select_from(table_alias)
    }
}

/// The error for a projection whose row decoder panicked.
pub fn projection_hydration_panic_error(projection: &str, message: &str) -> (e: Error)
    ensures
        e.is_plain(),
        e@ == "projection `"@ + projection@ + "` hydration panicked: "@ + message@,
{
    let mut m = owned("projection `");
    m.append(projection);
    m.append("` hydration panicked: ");
    m.append(message);
    Error::message(m)
}

} // verus!
