//! Migration bookkeeping: status reports, the ledger table's SQL, the
//! advisory lock key and the registries of migration and seeder ids.
use std::path::PathBuf;

use vstd::prelude::*;

use crate::ast::{value_type, DbValue};
use crate::config::DatabaseConfig;
use crate::record::{missing_field_message, wrong_type_message, DbRecord};
use crate::error::Error;
use crate::text::{
    dec, idec, lemma_seq_lt_irreflexive, lemma_seq_lt_total, lemma_seq_lt_transitive, owned, push_char,
    push_decimal, push_signed_decimal, seq_lt, str_eq, str_less,
};

verus! {

/// A migration recorded in the ledger.
#[derive(Debug, PartialEq, Eq)]
pub struct AppliedMigration {
    pub id: String,
    pub batch: i64,
    pub applied_at: String,
}

/// A registered migration and its ledger row, when it has run.
#[derive(Debug, PartialEq, Eq)]
pub struct MigrationStatus {
    pub id: String,
    pub applied: Option<AppliedMigration>,
}

/// The registered migrations with their state, the ledger rows of
/// migrations that are no longer registered, and the latest batch.
#[derive(Debug)]
pub struct MigrationStatusReport {
    pub statuses: Vec<MigrationStatus>,
    pub missing_applied: Vec<AppliedMigration>,
    pub latest_batch: Option<i64>,
}

/// The counts of a status report.
#[derive(Clone, Copy, Debug, PartialEq, Eq, Structural)]
pub struct MigrationStatusSummary {
    pub registered: usize,
    pub applied: usize,
    pub pending: usize,
    pub missing_applied: usize,
    pub drifted: bool,
    pub up_to_date: bool,
    pub latest_batch: Option<i64>,
}

/// One row of the JSON status: a migration's id, its state (`applied`,
/// `pending` or `missing_applied`) and its ledger data.
#[derive(Debug, PartialEq, Eq)]
pub struct MigrationStatusJsonRow {
    pub id: String,
    pub state: &'static str,
    pub batch: Option<i64>,
    pub applied_at: Option<String>,
}

/// The JSON form of a status report.
#[derive(Debug)]
pub struct MigrationStatusJson {
    pub summary: MigrationStatusSummary,
    pub migrations: Vec<MigrationStatusJsonRow>,
    pub missing_applied: Vec<MigrationStatusJsonRow>,
}

/// How many statuses have a ledger row.
pub open spec fn applied_count(s: Seq<MigrationStatus>) -> nat
    decreases s.len(),
{
    if s.len() == 0 {
        0
    } else {
        applied_count(s.drop_last()) + (if s.last().applied is Some { 1nat } else { 0nat })
    }
}

proof fn lemma_applied_count_le(s: Seq<MigrationStatus>)
    ensures
        applied_count(s) <= s.len(),
    decreases s.len(),
{
    if s.len() > 0 {
        lemma_applied_count_le(s.drop_last());
    }
}

/// The row of a registered migration.
pub open spec fn status_row_matches(r: MigrationStatusJsonRow, s: MigrationStatus) -> bool {
    &&& r.id@ == s.id@
    &&& match s.applied {
        Some(a) => r.state@ == "applied"@ && r.batch == Some(a.batch)
            && (r.applied_at matches Some(t) && t@ == a.applied_at@),
        None => r.state@ == "pending"@ && r.batch is None && r.applied_at is None,
    }
}

/// The row of a ledger entry without a registered migration.
pub open spec fn missing_row_matches(r: MigrationStatusJsonRow, a: AppliedMigration) -> bool {
    &&& r.id@ == a.id@
    &&& r.state@ == "missing_applied"@
    &&& r.batch == Some(a.batch)
    &&& r.applied_at matches Some(t) && t@ == a.applied_at@
}

impl MigrationStatusJsonRow {
    /// The row of a registered migration: `applied` with its ledger data,
    /// or `pending`.
    pub fn from_status(status: &MigrationStatus) -> (r: Self)
        ensures
            status_row_matches(r, *status),
    {
        match &status.applied {
            Some(applied) => MigrationStatusJsonRow {
                id: status.id.clone(),
                state: "applied",
                batch: Some(applied.batch),
                applied_at: Some(applied.applied_at.clone()),
            },
            None => MigrationStatusJsonRow {
                id: status.id.clone(),
                state: "pending",
                batch: None,
                applied_at: None,
            },
        }
    }

    /// The row of a ledger entry whose migration is no longer registered.
    pub fn from_missing(applied: &AppliedMigration) -> (r: Self)
        ensures
            missing_row_matches(r, *applied),
    {
        MigrationStatusJsonRow {
            id: applied.id.clone(),
            state: "missing_applied",
            batch: Some(applied.batch),
            applied_at: Some(applied.applied_at.clone()),
        }
    }
}

impl MigrationStatusReport {
    /// The report's counts: pending migrations are the registered ones
    /// without a ledger row; the ledger has drifted when it holds rows of
    /// unregistered migrations; it is up to date when nothing is pending
    /// and nothing has drifted.
    pub fn summary(&self) -> (r: MigrationStatusSummary)
        ensures
            r.registered == self.statuses.len(),
            r.applied == applied_count(self.statuses@),
            r.pending == self.statuses.len() - applied_count(self.statuses@),
            r.applied + r.pending == r.registered,
            r.missing_applied == self.missing_applied.len(),
            r.drifted == (self.missing_applied.len() > 0),
            r.up_to_date == (r.pending == 0 && self.missing_applied.len() == 0),
            r.latest_batch == self.latest_batch,
    {
        let registered = self.statuses.len();
        let mut applied: usize = 0;
        let mut i: usize = 0;
        while i < registered
            invariant
                registered == self.statuses.len(),
                i <= registered,
                applied == applied_count(self.statuses@.subrange(0, i as int)),
                applied <= i,
            decreases registered - i,
        {
            proof {
                assert(self.statuses@.subrange(0, i + 1).drop_last() =~= self.statuses@.subrange(0, i as int));
            }
            if self.statuses[i].applied.is_some() {
                applied = applied + 1;
            }
            i = i + 1;
        }
        proof {
            assert(self.statuses@.subrange(0, registered as int) =~= self.statuses@);
        }
        let pending = registered - applied;
        let missing_applied = self.missing_applied.len();
        MigrationStatusSummary {
            registered,
            applied,
            pending,
            missing_applied,
            drifted: missing_applied > 0,
            up_to_date: pending == 0 && missing_applied == 0,
            latest_batch: self.latest_batch,
        }
    }

    /// The JSON form: the summary, one row per registered migration and
    /// one per unregistered ledger entry, in order.
    pub fn to_json(&self) -> (r: MigrationStatusJson)
        ensures
            r.summary.registered == self.statuses.len(),
            r.summary.applied == applied_count(self.statuses@),
            r.summary.pending == self.statuses.len() - applied_count(self.statuses@),
            r.summary.missing_applied == self.missing_applied.len(),
            r.summary.drifted == (self.missing_applied.len() > 0),
            r.summary.up_to_date == (r.summary.pending == 0 && self.missing_applied.len() == 0),
            r.summary.latest_batch == self.latest_batch,
            r.migrations.len() == self.statuses.len(),
            forall|i: int| 0 <= i < self.statuses.len() ==> status_row_matches(#[trigger] r.migrations@[i], self.statuses@[i]),
            r.missing_applied.len() == self.missing_applied.len(),
            forall|i: int| 0 <= i < self.missing_applied.len() ==> missing_row_matches(#[trigger] r.missing_applied@[i], self.missing_applied@[i]),
    {
        let summary = self.summary();
        let mut migrations: Vec<MigrationStatusJsonRow> = Vec::new();
        let mut i: usize = 0;
        while i < self.statuses.len()
            invariant
                i <= self.statuses.len(),
                migrations.len() == i,
                forall|j: int| 0 <= j < i ==> status_row_matches(#[trigger] migrations@[j], self.statuses@[j]),
            decreases self.statuses.len() - i,
        {
            migrations.push(MigrationStatusJsonRow::from_status(&self.statuses[i]));
            i = i + 1;
        }
        let mut missing: Vec<MigrationStatusJsonRow> = Vec::new();
        let mut k: usize = 0;
        while k < self.missing_applied.len()
            invariant
                k <= self.missing_applied.len(),
                missing.len() == k,
                forall|j: int| 0 <= j < k ==> missing_row_matches(#[trigger] missing@[j], self.missing_applied@[j]),
            decreases self.missing_applied.len() - k,
        {
            missing.push(MigrationStatusJsonRow::from_missing(&self.missing_applied[k]));
            k = k + 1;
        }
        MigrationStatusJson { summary, migrations, missing_applied: missing }
    }
}

/// `std::path::PathBuf`, carried through as an opaque value.
#[verifier::external_type_specification]
#[verifier::external_body]
pub struct ExPathBuf(std::path::PathBuf);

/// The directories where migration and seeder files are generated.
#[derive(Debug)]
pub struct GeneratedDatabasePaths {
    pub migration_dirs: Vec<PathBuf>,
    pub seeder_dirs: Vec<PathBuf>,
}

impl GeneratedDatabasePaths {
    pub fn new(migration_dirs: Vec<PathBuf>, seeder_dirs: Vec<PathBuf>) -> (r: Self)
        ensures
            r.migration_dirs@ == migration_dirs@,
            r.seeder_dirs@ == seeder_dirs@,
    {
        GeneratedDatabasePaths { migration_dirs, seeder_dirs }
    }

    pub fn migration_dirs(&self) -> (r: &Vec<PathBuf>)
        ensures
            r@ == self.migration_dirs@,
    {
        &self.migration_dirs
    }

    pub fn seeder_dirs(&self) -> (r: &Vec<PathBuf>)
        ensures
            r@ == self.seeder_dirs@,
    {
        &self.seeder_dirs
    }

    /// The first migration directory, if any.
    pub fn primary_migration_dir(&self) -> (r: Option<&PathBuf>)
        ensures
            self.migration_dirs.len() == 0 ==> r is None,
            self.migration_dirs.len() > 0 ==> r == Some(&self.migration_dirs@[0]),
    {
        if self.migration_dirs.len() > 0 {
            Some(&self.migration_dirs[0])
        } else {
            None
        }
    }

    /// The first seeder directory, if any.
    pub fn primary_seeder_dir(&self) -> (r: Option<&PathBuf>)
        ensures
            self.seeder_dirs.len() == 0 ==> r is None,
            self.seeder_dirs.len() > 0 ==> r == Some(&self.seeder_dirs@[0]),
    {
        if self.seeder_dirs.len() > 0 {
            Some(&self.seeder_dirs[0])
        } else {
            None
        }
    }
}

// ---------------------------------------------------------------------------
// Ledger SQL
// ---------------------------------------------------------------------------

/// `s` with every `q` doubled.
pub open spec fn doubled(s: Seq<char>, q: char) -> Seq<char>
    decreases s.len(),
{
    if s.len() == 0 {
        Seq::empty()
    } else {
        doubled(s.drop_last(), q) + (if s.last() == q { seq![q, q] } else { seq![s.last()] })
    }
}

/// A double-quoted SQL identifier.
pub open spec fn sql_identifier(s: Seq<char>) -> Seq<char> {
    "\""@ + doubled(s, '"') + "\""@
}

/// A single-quoted SQL string literal.
pub open spec fn sql_literal(s: Seq<char>) -> Seq<char> {
    "'"@ + doubled(s, '\'') + "'"@
}

proof fn lemma_doubled_injective(a: Seq<char>, b: Seq<char>, q: char)
    requires
        doubled(a, q) == doubled(b, q),
    ensures
        a == b,
    decreases a.len(),
{
    if a.len() == 0 {
        if b.len() > 0 {
            assert(doubled(b, q).len() >= 1);
        }
        assert(b =~= a);
    } else {
        if b.len() == 0 {
            assert(doubled(a, q).len() >= 1);
        }
        let d = doubled(a, q);
        let ta = if a.last() == q { seq![q, q] } else { seq![a.last()] };
        let tb = if b.last() == q { seq![q, q] } else { seq![b.last()] };
        assert(d == doubled(a.drop_last(), q) + ta);
        assert(d == doubled(b.drop_last(), q) + tb);
        assert(d.last() == ta.last() && d.last() == tb.last());
        assert(a.last() == b.last());
        assert(doubled(a.drop_last(), q) =~= d.subrange(0, d.len() - ta.len()));
        assert(doubled(b.drop_last(), q) =~= d.subrange(0, d.len() - tb.len()));
        lemma_doubled_injective(a.drop_last(), b.drop_last(), q);
        assert(a =~= a.drop_last().push(a.last()));
        assert(b =~= b.drop_last().push(b.last()));
    }
}

/// Quoting keeps names apart: two names quote to the same identifier, or
/// to the same literal, only when they are the same.
pub proof fn law_ledger_quoting_is_injective(a: Seq<char>, b: Seq<char>)
    ensures
        sql_identifier(a) == sql_identifier(b) ==> a == b,
        sql_literal(a) == sql_literal(b) ==> a == b,
{
    reveal_strlit("\"");
    reveal_strlit("'");
    if sql_identifier(a) == sql_identifier(b) {
        let t = sql_identifier(a);
        assert(doubled(a, '"') =~= t.subrange(1, t.len() - 1));
        assert(doubled(b, '"') =~= t.subrange(1, t.len() - 1));
        lemma_doubled_injective(a, b, '"');
    }
    if sql_literal(a) == sql_literal(b) {
        let t = sql_literal(a);
        assert(doubled(a, '\'') =~= t.subrange(1, t.len() - 1));
        assert(doubled(b, '\'') =~= t.subrange(1, t.len() - 1));
        lemma_doubled_injective(a, b, '\'');
    }
}

/// Appends `q`, then `s` with every `q` doubled, then `q`.
fn push_quoted_with(out: &mut String, s: &str, q: char)
    ensures
        final(out)@ == old(out)@ + seq![q] + doubled(s@, q) + seq![q],
{
    let ghost o0 = out@;
    push_char(out, q);
    let n = s.unicode_len();
    let mut i: usize = 0;
    proof {
        assert(s@.subrange(0, 0) =~= Seq::<char>::empty());
        assert(out@ =~= o0 + seq![q] + doubled(s@.subrange(0, 0), q));
    }
    while i < n
        invariant
            n == s@.len(),
            i <= n,
            out@ == o0 + seq![q] + doubled(s@.subrange(0, i as int), q),
        decreases n - i,
    {
        let c = s.get_char(i);
        let ghost before = out@;
        proof {
            assert(s@.subrange(0, i + 1).drop_last() =~= s@.subrange(0, i as int));
        }
        if c == q {
            push_char(out, q);
            push_char(out, q);
        } else {
            push_char(out, c);
        }
        i = i + 1;
        proof {
            assert(out@ =~= o0 + seq![q] + doubled(s@.subrange(0, i as int), q));
        }
    }
    push_char(out, q);
    proof {
        assert(s@.subrange(0, n as int) =~= s@);
    }
}

/// A double-quoted SQL identifier, with double quotes doubled.
pub fn quote_identifier(value: &str) -> (r: String)
    ensures
        r@ == sql_identifier(value@),
{
    let mut r = String::new();
    push_quoted_with(&mut r, value, '"');
    proof {
        reveal_strlit("\"");
        assert(r@ =~= sql_identifier(value@));
    }
    r
}

/// A single-quoted SQL literal, with single quotes doubled.
pub fn quote_literal(value: &str) -> (r: String)
    ensures
        r@ == sql_literal(value@),
{
    let mut r = String::new();
    push_quoted_with(&mut r, value, '\'');
    proof {
        reveal_strlit("'");
        assert(r@ =~= sql_literal(value@));
    }
    r
}

pub open spec fn qualified(schema: Seq<char>, table: Seq<char>) -> Seq<char> {
    sql_identifier(schema) + "."@ + sql_identifier(table)
}

/// The ledger table, qualified by its schema.
pub fn qualified_migration_table(config: &DatabaseConfig) -> (r: String)
    ensures
        r@ == qualified(config.schema@, config.migration_table@),
{
    let mut r = quote_identifier(config.schema.as_str());
    r.append(".");
    let t = quote_identifier(config.migration_table.as_str());
    r.append(t.as_str());
    r
}

/// The ledger table of earlier releases, in the same schema.
pub fn qualified_legacy_migration_table(config: &DatabaseConfig) -> (r: String)
    ensures
        r@ == qualified(config.schema@, "forge_migrations"@),
{
    let mut r = quote_identifier(config.schema.as_str());
    r.append(".");
    let t = quote_identifier("forge_migrations");
    r.append(t.as_str());
    r
}

/// The statement that copies the rows of the earlier ledger into the
/// current one.
pub open spec fn legacy_copy_sql(config: DatabaseConfig) -> Seq<char> {
    "INSERT INTO "@ + qualified(config.schema@, config.migration_table@)
        + " (id, batch, applied_at) SELECT id, batch, applied_at FROM "@
        + qualified(config.schema@, "forge_migrations"@) + " ON CONFLICT (id) DO NOTHING"@
}

/// A `DO` block that runs the copy when the earlier ledger table exists.
pub open spec fn legacy_adoption_sql(config: DatabaseConfig) -> Seq<char> {
    "\n        DO $foundry$\n        BEGIN\n            IF to_regclass("@
        + sql_literal(qualified(config.schema@, "forge_migrations"@))
        + ") IS NOT NULL THEN\n                EXECUTE "@ + sql_literal(legacy_copy_sql(config))
        + ";\n            END IF;\n        END\n        $foundry$;\n        "@
}

/// The SQL that adopts the ledger rows of earlier releases.
pub fn legacy_migration_ledger_adoption_sql(config: &DatabaseConfig) -> (r: String)
    ensures
        r@ == legacy_adoption_sql(*config),
{
    let legacy_table = qualified_legacy_migration_table(config);
    let migration_table = qualified_migration_table(config);
    let mut copy_sql = owned("INSERT INTO ");
    copy_sql.append(migration_table.as_str());
    copy_sql.append(" (id, batch, applied_at) SELECT id, batch, applied_at FROM ");
    copy_sql.append(legacy_table.as_str());
    copy_sql.append(" ON CONFLICT (id) DO NOTHING");
    let mut r = owned("\n        DO $foundry$\n        BEGIN\n            IF to_regclass(");
    let legacy_literal = quote_literal(legacy_table.as_str());
    r.append(legacy_literal.as_str());
    r.append(") IS NOT NULL THEN\n                EXECUTE ");
    let copy_literal = quote_literal(copy_sql.as_str());
    r.append(copy_literal.as_str());
    r.append(";\n            END IF;\n        END\n        $foundry$;\n        ");
    proof {
        assert(copy_sql@ =~= legacy_copy_sql(*config));
        assert(r@ =~= legacy_adoption_sql(*config));
    }
    r
}

/// The statements that prepare the ledger, in order: its schema, its
/// table, and, for the default ledger name, the adoption of the rows of
/// earlier releases.
pub open spec fn ledger_setup(config: DatabaseConfig) -> Seq<Seq<char>> {
    let base = seq![
        "CREATE SCHEMA IF NOT EXISTS "@ + sql_identifier(config.schema@),
        "CREATE TABLE IF NOT EXISTS "@ + qualified(config.schema@, config.migration_table@)
            + " (id TEXT PRIMARY KEY, batch BIGINT NOT NULL, applied_at TIMESTAMPTZ NOT NULL)"@,
    ];
    if config.migration_table@ == "foundry_migrations"@ {
        base.push(legacy_adoption_sql(config))
    } else {
        base
    }
}

/// The statements that create the ledger and adopt earlier rows into it.
pub fn ledger_setup_statements(config: &DatabaseConfig) -> (r: Vec<String>)
    ensures
        views_of(r@) == ledger_setup(*config),
{
    let mut statements: Vec<String> = Vec::new();
    let mut schema = owned("CREATE SCHEMA IF NOT EXISTS ");
    let quoted = quote_identifier(config.schema.as_str());
    schema.append(quoted.as_str());
    statements.push(schema);
    let mut table = owned("CREATE TABLE IF NOT EXISTS ");
    let qualified_table = qualified_migration_table(config);
    table.append(qualified_table.as_str());
    table.append(" (id TEXT PRIMARY KEY, batch BIGINT NOT NULL, applied_at TIMESTAMPTZ NOT NULL)");
    statements.push(table);
    if str_eq(config.migration_table.as_str(), "foundry_migrations") {
        statements.push(legacy_migration_ledger_adoption_sql(config));
    }
    proof {
        assert(views_of(statements@) =~= ledger_setup(*config));
    }
    statements
}

/// The query that reads the ledger, ordered by id.
pub fn applied_migrations_query(config: &DatabaseConfig) -> (r: String)
    ensures
        r@ == "SELECT id, batch, applied_at::TEXT AS applied_at FROM "@ + qualified(
            config.schema@,
            config.migration_table@,
        ) + " ORDER BY id"@,
{
    let mut r = owned("SELECT id, batch, applied_at::TEXT AS applied_at FROM ");
    let t = qualified_migration_table(config);
    r.append(t.as_str());
    r.append(" ORDER BY id");
    r
}

/// The statement that records a migration, bound to its id and batch.
pub fn record_applied_migration_sql(config: &DatabaseConfig) -> (r: String)
    ensures
        r@ == "INSERT INTO "@ + qualified(config.schema@, config.migration_table@)
            + " (id, batch, applied_at) VALUES ($1, $2, NOW())"@,
{
    let mut r = owned("INSERT INTO ");
    let t = qualified_migration_table(config);
    r.append(t.as_str());
    r.append(" (id, batch, applied_at) VALUES ($1, $2, NOW())");
    r
}

/// The statement that forgets a migration, bound to its id.
pub fn delete_applied_migration_sql(config: &DatabaseConfig) -> (r: String)
    ensures
        r@ == "DELETE FROM "@ + qualified(config.schema@, config.migration_table@) + " WHERE id = $1"@,
{
    let mut r = owned("DELETE FROM ");
    let t = qualified_migration_table(config);
    r.append(t.as_str());
    r.append(" WHERE id = $1");
    r
}

/// The text of a record's field, or the message that refuses it.
pub open spec fn text_field(record: DbRecord, name: Seq<char>) -> Result<Seq<char>, Seq<char>> {
    match record.field(name) {
        Some(DbValue::Text(s)) => Ok(s@),
        Some(v) => Err(wrong_type_message(name, "text"@, value_type(v@))),
        None => Err(missing_field_message(name)),
    }
}

/// The batch number of a ledger row's `batch` value: an integer of any
/// width.
pub open spec fn ledger_batch(v: Option<DbValue>) -> Option<i64> {
    match v {
        Some(DbValue::Int64(x)) => Some(x),
        Some(DbValue::Int32(x)) => Some(x as i64),
        Some(DbValue::Int16(x)) => Some(x as i64),
        _ => None,
    }
}

/// The ledger row that a record of the ledger query reads as: its `id`
/// and `applied_at` text and its integer `batch`; the batch is checked
/// first, then the id, then the time.
pub fn applied_migration_from_record(record: &DbRecord) -> (r: Result<AppliedMigration, Error>)
    requires
        record.well_formed(),
    ensures
        match ledger_batch(record.field("batch"@)) {
            None => r matches Err(e) && e.is_plain() && e@ == "ledger column `batch` is not an integer"@,
            Some(b) => match (text_field(*record, "id"@), text_field(*record, "applied_at"@)) {
                (Ok(id), Ok(at)) => r matches Ok(a) && a.id@ == id && a.batch == b && a.applied_at@ == at,
                (Err(m), _) => r matches Err(e) && e.is_plain() && e@ == m,
                (Ok(_), Err(m)) => r matches Err(e) && e.is_plain() && e@ == m,
            },
        },
{
    let batch: i64 = match record.get("batch") {
        Some(DbValue::Int64(value)) => *value,
        Some(DbValue::Int32(value)) => *value as i64,
        Some(DbValue::Int16(value)) => *value as i64,
        _ => {
            return Err(Error::message(owned("ledger column `batch` is not an integer")));
        },
    };
    let id = match record.try_text("id") {
        Ok(id) => id,
        Err(e) => {
            return Err(e);
        },
    };
    let applied_at = match record.try_text("applied_at") {
        Ok(t) => t,
        Err(e) => {
            return Err(e);
        },
    };
    Ok(AppliedMigration { id, batch, applied_at })
}

// ---------------------------------------------------------------------------
// Advisory lock
// ---------------------------------------------------------------------------

pub open spec fn fnv_offset() -> u64 {
    0xcbf29ce484222325
}

pub open spec fn fnv_prime() -> u64 {
    0x100000001b3
}

/// One FNV-1a step: xor the byte in, multiply by the prime modulo 2^64.
pub open spec fn fnv_step(h: u64, b: u8) -> u64 {
    (((h ^ (b as u64)) as nat * fnv_prime() as nat) % 0x1_0000_0000_0000_0000nat) as u64
}

/// The 64-bit FNV-1a hash of `bytes` continued from `h`.
pub open spec fn fnv1a_from(h: u64, bytes: Seq<u8>) -> u64
    decreases bytes.len(),
{
    if bytes.len() == 0 {
        h
    } else {
        fnv1a_from(fnv_step(h, bytes[0]), bytes.drop_first())
    }
}

proof fn lemma_fnv1a_push(h: u64, bytes: Seq<u8>, b: u8)
    ensures
        fnv1a_from(h, bytes.push(b)) == fnv_step(fnv1a_from(h, bytes), b),
    decreases bytes.len(),
{
    if bytes.len() == 0 {
        assert(bytes.push(b)[0] == b);
        assert(bytes.push(b).drop_first() =~= Seq::<u8>::empty());
        assert(fnv1a_from(fnv_step(h, b), Seq::<u8>::empty()) == fnv_step(h, b));
        assert(fnv1a_from(h, bytes) == h);
    } else {
        lemma_fnv1a_push(fnv_step(h, bytes[0]), bytes.drop_first(), b);
        assert(bytes.push(b)[0] == bytes[0]);
        assert(bytes.push(b).drop_first() =~= bytes.drop_first().push(b));
    }
}

/// The key text of the migration lock: `foundry:<schema>:<table>`.
pub open spec fn lock_key_text(config: DatabaseConfig) -> Seq<char> {
    "foundry:"@ + config.schema@ + ":"@ + config.migration_table@
}

/// The advisory lock key of a ledger: the FNV-1a hash of the UTF-8 key
/// text, with the sign bit cleared.
pub open spec fn lock_key(config: DatabaseConfig) -> i64 {
    (fnv1a_from(fnv_offset(), vstd::utf8::encode_utf8(lock_key_text(config))) & 0x7fff_ffff_ffff_ffffu64) as i64
}

/// The advisory lock key that serializes migrations on one ledger.
pub fn advisory_lock_key(config: &DatabaseConfig) -> (r: i64)
    ensures
        r == lock_key(*config),
        r >= 0,
{
    let mut input = owned("foundry:");
    input.append(config.schema.as_str());
    input.append(":");
    input.append(config.migration_table.as_str());
    let bytes = input.as_str().as_bytes();
    let ghost bs = bytes@;
    let mut hash: u64 = 0xcbf29ce484222325;
    let mut i: usize = 0;
    proof {
        assert(bs.subrange(0, 0) =~= Seq::<u8>::empty());
    }
    while i < bytes.len()
        invariant
            bs == bytes@,
            i <= bytes.len(),
            hash == fnv1a_from(fnv_offset(), bs.subrange(0, i as int)),
        decreases bytes.len() - i,
    {
        let b = bytes[i];
        proof {
            assert(bs.subrange(0, i + 1) =~= bs.subrange(0, i as int).push(b));
            lemma_fnv1a_push(fnv_offset(), bs.subrange(0, i as int), b);
        }
        hash = (hash ^ (b as u64)).wrapping_mul(0x100000001b3);
        i = i + 1;
    }
    proof {
        assert(bs.subrange(0, bytes.len() as int) =~= bs);
        assert(input@ =~= lock_key_text(*config));
    }
    let masked = hash & 0x7fff_ffff_ffff_ffff;
    proof {
        assert(masked <= 0x7fff_ffff_ffff_ffff) by (bit_vector)
            requires
                masked == hash & 0x7fff_ffff_ffff_ffff,
        ;
    }
    masked as i64
}

/// The error when the migration lock is not acquired in time.
pub fn migration_lock_timeout_error(config: &DatabaseConfig, timeout_ms: u64) -> (e: Error)
    ensures
        e.is_plain(),
        e@ == "timed out after "@ + dec(timeout_ms as nat)
            + "ms waiting for migration advisory lock for schema `"@ + config.schema@
            + "` and migration table `"@ + config.migration_table@
            + "`; another db:migrate or db:rollback process is likely still running"@,
{
    let mut m = owned("timed out after ");
    push_decimal(&mut m, timeout_ms);
    m.append("ms waiting for migration advisory lock for schema `");
    m.append(config.schema.as_str());
    m.append("` and migration table `");
    m.append(config.migration_table.as_str());
    m.append("`; another db:migrate or db:rollback process is likely still running");
    Error::message(m)
}

/// The lock timeout of a command: its `--lock-timeout-ms` value, else the
/// configured one.
pub fn lock_timeout_ms(argument: Option<u64>, config: &DatabaseConfig) -> (r: u64)
    ensures
        r == match argument {
            Some(v) => v,
            None => config.migration_lock_timeout_ms,
        },
{
    match argument {
        Some(v) => v,
        None => config.migration_lock_timeout_ms,
    }
}

/// The error for a migration or seeder callback that panicked.
pub fn database_lifecycle_panic_error(kind: &str, id: &str, phase: &str, message: &str) -> (e: Error)
    ensures
        e.is_plain(),
        e@ == kind@ + " `"@ + id@ + "` "@ + phase@ + " panicked: "@ + message@,
{
    let mut m = owned(kind);
    m.append(" `");
    m.append(id);
    m.append("` ");
    m.append(phase);
    m.append(" panicked: ");
    m.append(message);
    Error::message(m)
}

// ---------------------------------------------------------------------------
// Registries
// ---------------------------------------------------------------------------

pub open spec fn views_of(v: Seq<String>) -> Seq<Seq<char>> {
    v.map_values(|s: String| s@)
}

/// Strictly increasing in string order, so without repeats.
pub open spec fn strictly_sorted(s: Seq<Seq<char>>) -> bool {
    forall|i: int, j: int| 0 <= i < j < s.len() ==> seq_lt(#[trigger] s[i], #[trigger] s[j])
}

proof fn lemma_insert_sorted(s: Seq<Seq<char>>, x: Seq<char>, p: int)
    requires
        0 <= p <= s.len(),
        strictly_sorted(s),
        forall|j: int| 0 <= j < p ==> seq_lt(#[trigger] s[j], x),
        forall|j: int| p <= j < s.len() ==> seq_lt(x, #[trigger] s[j]),
    ensures
        strictly_sorted(s.insert(p, x)),
{
    let t = s.insert(p, x);
    assert forall|i: int, j: int| 0 <= i < j < t.len() implies seq_lt(#[trigger] t[i], #[trigger] t[j]) by {
        if i < p && j < p {
            assert(t[i] == s[i] && t[j] == s[j]);
        } else if i < p && j == p {
            assert(t[i] == s[i]);
        } else if i < p && j > p {
            assert(t[i] == s[i] && t[j] == s[j - 1]);
        } else if i == p {
            assert(t[j] == s[j - 1]);
        } else {
            assert(t[i] == s[i - 1] && t[j] == s[j - 1]);
        }
    }
}

/// Inserts `id` at its place in strictly increasing `ids`, unless it is
/// there already; tells whether it was inserted.
pub fn sorted_insert(ids: &mut Vec<String>, id: &str) -> (inserted: bool)
    requires
        strictly_sorted(views_of(old(ids)@)),
    ensures
        strictly_sorted(views_of(final(ids)@)),
        inserted == !views_of(old(ids)@).contains(id@),
        !inserted ==> final(ids)@ == old(ids)@,
        inserted ==> exists|p: int| 0 <= p <= old(ids)@.len()
            && views_of(final(ids)@) == views_of(old(ids)@).insert(p, id@),
{
    let ghost s0 = views_of(ids@);
    let mut p: usize = 0;
    while p < ids.len() && str_less(ids[p].as_str(), id)
        invariant
            p <= ids.len(),
            s0 == views_of(ids@),
            forall|j: int| 0 <= j < p ==> seq_lt(#[trigger] s0[j], id@),
        decreases ids.len() - p,
    {
        p = p + 1;
    }
    if p < ids.len() && str_eq(ids[p].as_str(), id) {
        proof {
            assert(s0[p as int] == id@);
        }
        return false;
    }
    proof {
        assert forall|q: int| 0 <= q < s0.len() implies s0[q] != id@ by {
            if q < p {
                lemma_seq_lt_irreflexive(id@);
            } else if q > p {
                assert(seq_lt(s0[p as int], s0[q]));
                assert(!seq_lt(s0[p as int], id@));
            }
        }
        assert forall|j: int| p <= j < s0.len() implies seq_lt(id@, #[trigger] s0[j]) by {
            lemma_seq_lt_total(s0[p as int], id@);
            if j > p {
                assert(seq_lt(s0[p as int], s0[j]));
                lemma_seq_lt_transitive(id@, s0[p as int], s0[j]);
            }
        }
        lemma_insert_sorted(s0, id@, p as int);
    }
    ids.insert(p, owned(id));
    proof {
        assert(views_of(ids@) =~= s0.insert(p as int, id@));
    }
    true
}

/// The ids of the registered migrations, kept in id order.
#[derive(Debug)]
pub struct MigrationRegistryBuilder {
    ids: Vec<String>,
}

impl View for MigrationRegistryBuilder {
    type V = Seq<Seq<char>>;

    closed spec fn view(&self) -> Seq<Seq<char>> {
        views_of(self.ids@)
    }
}

impl MigrationRegistryBuilder {
    /// The builder's invariant: its ids are in strictly increasing order.
    pub closed spec fn well_formed(&self) -> bool {
        strictly_sorted(self@)
    }

    pub fn new() -> (r: Self)
        ensures
            r@ == Seq::<Seq<char>>::empty(),
            r.well_formed(),
    {
        let r = MigrationRegistryBuilder { ids: Vec::new() };
        proof {
            assert(r@ =~= Seq::<Seq<char>>::empty());
        }
        r
    }

    /// Registers a migration id; an id that is already registered is
    /// refused. The ids stay in id order.
    pub fn register(&mut self, id: &str) -> (r: Result<(), Error>)
        requires
            old(self).well_formed(),
        ensures
            final(self).well_formed(),
            old(self)@.contains(id@) ==> (r matches Err(e) && e.is_plain() && e@ == "migration `"@ + id@ + "` already registered"@
                && final(self)@ == old(self)@),
            !old(self)@.contains(id@) ==> (r is Ok && exists|p: int| 0 <= p <= old(self)@.len()
                && final(self)@ == old(self)@.insert(p, id@)),
    {
        if sorted_insert(&mut self.ids, id) {
            Ok(())
        } else {
            let mut m = owned("migration `");
            m.append(id);
            m.append("` already registered");
            Err(Error::message(m))
        }
    }

    /// The registered ids, in id order.
    pub fn ids(&self) -> (r: Vec<String>)
        ensures
            views_of(r@) == self@,
    {
        let mut r: Vec<String> = Vec::new();
        let mut i: usize = 0;
        while i < self.ids.len()
            invariant
                i <= self.ids.len(),
                views_of(r@) == views_of(self.ids@).subrange(0, i as int),
            decreases self.ids.len() - i,
        {
            let ghost before = r@;
            let c = self.ids[i].clone();
            proof {
                assert(c@ == self.ids@[i as int]@);
            }
            r.push(c);
            proof {
                assert(views_of(r@) =~= views_of(before).push(self.ids@[i as int]@));
                assert(views_of(self.ids@).subrange(0, i + 1) =~= views_of(self.ids@).subrange(0, i as int).push(self.ids@[i as int]@));
            }
            i = i + 1;
        }
        proof {
            assert(views_of(self.ids@).subrange(0, i as int) =~= views_of(self.ids@));
        }
        r
    }
}


/// The registered seeder ids, in registration order and without repeats.
#[derive(Debug)]
pub struct SeederRegistryBuilder {
    ids: Vec<String>,
}

impl View for SeederRegistryBuilder {
    type V = Seq<Seq<char>>;

    closed spec fn view(&self) -> Seq<Seq<char>> {
        views_of(self.ids@)
    }
}

/// The migration ids of a registry come in strictly increasing id order,
/// so each is registered once.
pub proof fn law_migration_ids_sorted_and_unique(registry: &MigrationRegistryBuilder)
    requires
        registry.well_formed(),
    ensures
        strictly_sorted(registry@),
        registry@.no_duplicates(),
{
    assert forall|i: int, j: int| 0 <= i < registry@.len() && 0 <= j < registry@.len() && i != j implies
        registry@[i] != registry@[j] by {
        if i < j {
            assert(seq_lt(registry@[i], registry@[j]));
            lemma_seq_lt_irreflexive(registry@[i]);
        } else {
            assert(seq_lt(registry@[j], registry@[i]));
            lemma_seq_lt_irreflexive(registry@[j]);
        }
    }
}

/// Whether `id` is one of `ids`.
fn contains_id(ids: &Vec<String>, id: &str) -> (r: bool)
    ensures
        r == views_of(ids@).contains(id@),
{
    let mut i: usize = 0;
    while i < ids.len()
        invariant
            i <= ids.len(),
            forall|j: int| 0 <= j < i ==> #[trigger] views_of(ids@)[j] != id@,
        decreases ids.len() - i,
    {
        if str_eq(ids[i].as_str(), id) {
            proof {
                assert(views_of(ids@)[i as int] == id@);
            }
            return true;
        }
        i = i + 1;
    }
    false
}

impl SeederRegistryBuilder {
    /// The builder's invariant: no id is registered twice.
    pub closed spec fn well_formed(&self) -> bool {
        self@.no_duplicates()
    }

    pub fn new() -> (r: Self)
        ensures
            r@ == Seq::<Seq<char>>::empty(),
            r.well_formed(),
    {
        let r = SeederRegistryBuilder { ids: Vec::new() };
        proof {
            assert(r@ =~= Seq::<Seq<char>>::empty());
        }
        r
    }

    /// Registers a seeder id after the others; an id that is already
    /// registered is refused.
    pub fn register(&mut self, id: &str) -> (r: Result<(), Error>)
        requires
            old(self).well_formed(),
        ensures
            final(self).well_formed(),
            old(self)@.contains(id@) ==> (r matches Err(e) && e.is_plain() && e@ == "seeder `"@ + id@ + "` already registered"@
                && final(self)@ == old(self)@),
            !old(self)@.contains(id@) ==> (r is Ok && final(self)@ == old(self)@.push(id@)),
    {
        if contains_id(&self.ids, id) {
            let mut m = owned("seeder `");
            m.append(id);
            m.append("` already registered");
            return Err(Error::message(m));
        }
        let ghost s0 = self@;
        self.ids.push(owned(id));
        proof {
            assert(self@ =~= s0.push(id@));
        }
        Ok(())
    }

    /// The registered ids, in registration order.
    pub fn ids(&self) -> (r: Vec<String>)
        ensures
            views_of(r@) == self@,
    {
        clone_ids(&self.ids)
    }
}

/// The seeder ids of a registry are each registered once.
pub proof fn law_seeder_ids_unique(registry: &SeederRegistryBuilder)
    requires
        registry.well_formed(),
    ensures
        registry@.no_duplicates(),
{
}

fn clone_ids(ids: &Vec<String>) -> (r: Vec<String>)
    ensures
        views_of(r@) == views_of(ids@),
{
    let mut r: Vec<String> = Vec::new();
    let mut i: usize = 0;
    while i < ids.len()
        invariant
            i <= ids.len(),
            views_of(r@) == views_of(ids@).subrange(0, i as int),
        decreases ids.len() - i,
    {
        let ghost before = r@;
        let c = ids[i].clone();
        r.push(c);
        proof {
            assert(views_of(r@) =~= views_of(before).push(ids@[i as int]@));
            assert(views_of(ids@).subrange(0, i + 1) =~= views_of(ids@).subrange(0, i as int).push(ids@[i as int]@));
        }
        i = i + 1;
    }
    proof {
        assert(views_of(ids@).subrange(0, i as int) =~= views_of(ids@));
    }
    r
}

impl Clone for AppliedMigration {
    fn clone(&self) -> (r: Self)
        ensures
            r == *self,
    {
        AppliedMigration { id: self.id.clone(), batch: self.batch, applied_at: self.applied_at.clone() }
    }
}

pub open spec fn applied_view(a: AppliedMigration) -> (Seq<char>, i64, Seq<char>) {
    (a.id@, a.batch, a.applied_at@)
}

/// The ledger rows, in order, whose migration is not registered.
pub open spec fn missing_from(applied: Seq<AppliedMigration>, registered: Seq<Seq<char>>) -> Seq<(Seq<char>, i64, Seq<char>)>
    decreases applied.len(),
{
    if applied.len() == 0 {
        Seq::empty()
    } else {
        missing_from(applied.drop_last(), registered) + (if registered.contains(applied.last().id@) {
            Seq::empty()
        } else {
            seq![applied_view(applied.last())]
        })
    }
}

/// The ledger rows whose migration is not among the registered ids.
pub fn missing_applied_migrations(applied: &Vec<AppliedMigration>, registered: &Vec<String>) -> (r: Vec<AppliedMigration>)
    ensures
        r@.map_values(|a: AppliedMigration| applied_view(a)) == missing_from(applied@, views_of(registered@)),
{
    let mut r: Vec<AppliedMigration> = Vec::new();
    let mut i: usize = 0;
    while i < applied.len()
        invariant
            i <= applied.len(),
            r@.map_values(|a: AppliedMigration| applied_view(a)) == missing_from(applied@.subrange(0, i as int), views_of(registered@)),
        decreases applied.len() - i,
    {
        let ghost before = r@;
        proof {
            assert(applied@.subrange(0, i + 1).drop_last() =~= applied@.subrange(0, i as int));
        }
        if !contains_id(registered, applied[i].id.as_str()) {
            let c = applied[i].clone();
            r.push(c);
            proof {
                assert(r@.map_values(|a: AppliedMigration| applied_view(a)) =~= before.map_values(|a: AppliedMigration| applied_view(a)).push(applied_view(applied@[i as int])));
            }
        }
        i = i + 1;
        proof {
            assert(r@.map_values(|a: AppliedMigration| applied_view(a)) =~= missing_from(applied@.subrange(0, i as int), views_of(registered@)));
        }
    }
    proof {
        assert(applied@.subrange(0, i as int) =~= applied@);
    }
    r
}

/// The error when a ledger row has no registered migration.
pub open spec fn drift_message(id: Seq<char>) -> Seq<char> {
    "applied migration `"@ + id
        + "` is missing from the registered migration set; run `db:migrate:status --json` to inspect migration drift. This usually means the current binary was built without a migration file that has already run, or the migration ledger points at a removed file."@
}

/// Refuses a ledger that holds rows of migrations that are not registered,
/// naming the first of them.
pub fn ensure_applied_migrations_exist(applied: &Vec<AppliedMigration>, registered: &Vec<String>) -> (r: Result<(), Error>)
    ensures
        missing_from(applied@, views_of(registered@)).len() == 0 ==> r is Ok,
        missing_from(applied@, views_of(registered@)).len() > 0 ==> (r matches Err(e)
            && e.is_plain() && e@ == drift_message(missing_from(applied@, views_of(registered@))[0].0)),
{
    let missing = missing_applied_migrations(applied, registered);
    if missing.len() > 0 {
        let mut m = owned("applied migration `");
        m.append(missing[0].id.as_str());
        m.append("` is missing from the registered migration set; run `db:migrate:status --json` to inspect migration drift. This usually means the current binary was built without a migration file that has already run, or the migration ledger points at a removed file.");
        proof {
            assert(missing@.map_values(|a: AppliedMigration| applied_view(a))[0] == applied_view(missing@[0]));
        }
        return Err(Error::message(m));
    }
    Ok(())
}


// ---------------------------------------------------------------------------
// Lifecycle plans
// ---------------------------------------------------------------------------

/// The ledger row of a migration id: the first row with that id.
pub open spec fn applied_row(applied: Seq<AppliedMigration>, id: Seq<char>) -> Option<AppliedMigration>
    decreases applied.len(),
{
    if applied.len() == 0 {
        None
    } else if applied[0].id@ == id {
        Some(applied[0])
    } else {
        applied_row(applied.drop_first(), id)
    }
}

/// The largest batch of the ledger; none for an empty ledger.
pub open spec fn latest_batch_of(applied: Seq<AppliedMigration>) -> Option<i64>
    decreases applied.len(),
{
    if applied.len() == 0 {
        None
    } else {
        let b = applied.last().batch;
        match latest_batch_of(applied.drop_last()) {
            Some(m) => Some(if b > m { b } else { m }),
            None => Some(b),
        }
    }
}

/// The registered ids without a ledger row, in registration order.
pub open spec fn pending_ids(registered: Seq<Seq<char>>, applied: Seq<AppliedMigration>) -> Seq<Seq<char>>
    decreases registered.len(),
{
    if registered.len() == 0 {
        Seq::empty()
    } else {
        let rest = pending_ids(registered.drop_last(), applied);
        if applied_row(applied, registered.last()) is None {
            rest.push(registered.last())
        } else {
            rest
        }
    }
}

/// The registered ids whose ledger row is in `batch`, last registered first.
pub open spec fn batch_ids_last_first(registered: Seq<Seq<char>>, applied: Seq<AppliedMigration>, batch: i64) -> Seq<Seq<char>>
    decreases registered.len(),
{
    if registered.len() == 0 {
        Seq::empty()
    } else {
        let rest = batch_ids_last_first(registered.drop_first(), applied, batch);
        if applied_row(applied, registered[0]) matches Some(a) && a.batch == batch {
            rest.push(registered[0])
        } else {
            rest
        }
    }
}

fn find_applied(applied: &Vec<AppliedMigration>, id: &str) -> (r: Option<AppliedMigration>)
    ensures
        r == applied_row(applied@, id@),
{
    let mut i: usize = 0;
    proof {
        assert(applied@.subrange(0, applied@.len() as int) =~= applied@);
    }
    while i < applied.len()
        invariant
            i <= applied@.len(),
            applied_row(applied@, id@) == applied_row(applied@.subrange(i as int, applied@.len() as int), id@),
        decreases applied@.len() - i,
    {
        let ghost tail = applied@.subrange(i as int, applied@.len() as int);
        if str_eq(applied[i].id.as_str(), id) {
            proof {
                assert(tail[0] == applied@[i as int]);
            }
            return Some(applied[i].clone());
        }
        proof {
            assert(tail.drop_first() =~= applied@.subrange(i + 1, applied@.len() as int));
        }
        i = i + 1;
    }
    None
}

fn latest_batch(applied: &Vec<AppliedMigration>) -> (r: Option<i64>)
    ensures
        r == latest_batch_of(applied@),
{
    let mut best: Option<i64> = None;
    let mut i: usize = 0;
    while i < applied.len()
        invariant
            i <= applied@.len(),
            best == latest_batch_of(applied@.subrange(0, i as int)),
        decreases applied@.len() - i,
    {
        proof {
            assert(applied@.subrange(0, i + 1).drop_last() =~= applied@.subrange(0, i as int));
        }
        let b = applied[i].batch;
        best = match best {
            Some(m) => Some(if b > m { b } else { m }),
            None => Some(b),
        };
        i = i + 1;
    }
    proof {
        assert(applied@.subrange(0, i as int) =~= applied@);
    }
    best
}

/// The status report of registered migrations against the ledger: each
/// registered id with its ledger row, the rows of unregistered ids, and the
/// latest batch.
pub fn migration_status_report(registered: &Vec<String>, applied: &Vec<AppliedMigration>) -> (r: MigrationStatusReport)
    ensures
        r.statuses@.len() == registered@.len(),
        forall|i: int| 0 <= i < registered@.len() ==> (#[trigger] r.statuses@[i]).id@ == registered@[i]@
            && r.statuses@[i].applied == applied_row(applied@, registered@[i]@),
        r.missing_applied@.map_values(|a: AppliedMigration| applied_view(a)) == missing_from(applied@, views_of(registered@)),
        r.latest_batch == latest_batch_of(applied@),
{
    let mut statuses: Vec<MigrationStatus> = Vec::new();
    let mut i: usize = 0;
    while i < registered.len()
        invariant
            i <= registered@.len(),
            statuses@.len() == i,
            forall|j: int| 0 <= j < i ==> (#[trigger] statuses@[j]).id@ == registered@[j]@
                && statuses@[j].applied == applied_row(applied@, registered@[j]@),
        decreases registered@.len() - i,
    {
        let found = find_applied(applied, registered[i].as_str());
        statuses.push(MigrationStatus { id: registered[i].clone(), applied: found });
        i = i + 1;
    }
    let missing_applied = missing_applied_migrations(applied, registered);
    MigrationStatusReport { statuses, missing_applied, latest_batch: latest_batch(applied) }
}

/// The migrations a run applies, in order, and the batch they form.
#[derive(Debug, PartialEq, Eq)]
pub struct MigrationRunPlan {
    pub ids: Vec<String>,
    pub batch: Option<i64>,
}

/// The plan of `db:migrate`: a ledger with rows of unregistered migrations
/// is refused; otherwise every registered migration without a row runs, in
/// registration order, as the batch after the latest one (the first batch
/// on an empty ledger); with nothing pending nothing runs and there is no
/// batch.
pub fn plan_migrate(registered: &Vec<String>, applied: &Vec<AppliedMigration>) -> (r: Result<MigrationRunPlan, Error>)
    requires
        missing_from(applied@, views_of(registered@)).len() == 0 && pending_ids(views_of(registered@), applied@).len() > 0
            ==> (latest_batch_of(applied@) matches Some(b) ==> b < i64::MAX),
    ensures
        missing_from(applied@, views_of(registered@)).len() > 0 ==> (r matches Err(e)
            && e.is_plain() && e@ == drift_message(missing_from(applied@, views_of(registered@))[0].0)),
        missing_from(applied@, views_of(registered@)).len() == 0 ==> (r matches Ok(p)
            && views_of(p.ids@) == pending_ids(views_of(registered@), applied@)
            && p.batch == (if p.ids@.len() == 0 {
                None
            } else {
                Some((match latest_batch_of(applied@) {
                    Some(b) => b + 1,
                    None => 1,
                }) as i64)
            })),
{
    match ensure_applied_migrations_exist(applied, registered) {
        Err(e) => {
            return Err(e);
        },
        Ok(()) => {},
    }
    let mut ids: Vec<String> = Vec::new();
    let mut i: usize = 0;
    while i < registered.len()
        invariant
            i <= registered@.len(),
            views_of(ids@) == pending_ids(views_of(registered@).subrange(0, i as int), applied@),
        decreases registered@.len() - i,
    {
        let ghost before = ids@;
        proof {
            assert(views_of(registered@).subrange(0, i + 1).drop_last() =~= views_of(registered@).subrange(0, i as int));
        }
        if find_applied(applied, registered[i].as_str()).is_none() {
            ids.push(registered[i].clone());
            proof {
                assert(views_of(ids@) =~= views_of(before).push(registered@[i as int]@));
            }
        }
        i = i + 1;
    }
    proof {
        assert(views_of(registered@).subrange(0, i as int) =~= views_of(registered@));
    }
    if ids.len() == 0 {
        return Ok(MigrationRunPlan { ids, batch: None });
    }
    let batch = match latest_batch(applied) {
        Some(b) => b + 1,
        None => 1,
    };
    Ok(MigrationRunPlan { ids, batch: Some(batch) })
}

/// The plan of `db:rollback`: a ledger with rows of unregistered migrations
/// is refused; an empty ledger rolls nothing back; otherwise the registered
/// migrations of the latest batch roll back, last registered first.
pub fn plan_rollback(registered: &Vec<String>, applied: &Vec<AppliedMigration>) -> (r: Result<MigrationRunPlan, Error>)
    ensures
        missing_from(applied@, views_of(registered@)).len() > 0 ==> (r matches Err(e)
            && e.is_plain() && e@ == drift_message(missing_from(applied@, views_of(registered@))[0].0)),
        missing_from(applied@, views_of(registered@)).len() == 0 ==> (r matches Ok(p)
            && p.batch == latest_batch_of(applied@)
            && (match latest_batch_of(applied@) {
                Some(b) => views_of(p.ids@) == batch_ids_last_first(views_of(registered@), applied@, b),
                None => p.ids@.len() == 0,
            })),
{
    match ensure_applied_migrations_exist(applied, registered) {
        Err(e) => {
            return Err(e);
        },
        Ok(()) => {},
    }
    let latest = latest_batch(applied);
    let batch = match latest {
        None => {
            return Ok(MigrationRunPlan { ids: Vec::new(), batch: None });
        },
        Some(b) => b,
    };
    let mut ids: Vec<String> = Vec::new();
    let n = registered.len();
    let mut k: usize = n;
    while k > 0
        invariant
            k <= n,
            n == registered@.len(),
            views_of(ids@) == batch_ids_last_first(views_of(registered@).subrange(k as int, n as int), applied@, batch),
        decreases k,
    {
        k = k - 1;
        let ghost before = ids@;
        let ghost tail = views_of(registered@).subrange(k as int, n as int);
        proof {
            assert(tail.drop_first() =~= views_of(registered@).subrange(k + 1, n as int));
            assert(tail[0] == registered@[k as int]@);
        }
        match find_applied(applied, registered[k].as_str()) {
            Some(a) => {
                if a.batch == batch {
                    ids.push(registered[k].clone());
                    proof {
                        assert(views_of(ids@) =~= views_of(before).push(registered@[k as int]@));
                    }
                }
            },
            None => {},
        }
    }
    proof {
        assert(views_of(registered@).subrange(0, n as int) =~= views_of(registered@));
    }
    Ok(MigrationRunPlan { ids, batch: Some(batch) })
}

proof fn lemma_applied_row_found(s: Seq<AppliedMigration>, id: Seq<char>)
    ensures
        applied_row(s, id) is Some <==> exists|i: int| 0 <= i < s.len() && (#[trigger] s[i]).id@ == id,
        applied_row(s, id) matches Some(a) ==> a.id@ == id,
    decreases s.len(),
{
    if s.len() > 0 {
        let t = s.drop_first();
        lemma_applied_row_found(t, id);
        if exists|i: int| 0 <= i < s.len() && (#[trigger] s[i]).id@ == id {
            let i = choose|i: int| 0 <= i < s.len() && (#[trigger] s[i]).id@ == id;
            if i > 0 {
                assert(t[i - 1] == s[i]);
            }
        }
        if exists|i: int| 0 <= i < t.len() && (#[trigger] t[i]).id@ == id {
            let i = choose|i: int| 0 <= i < t.len() && (#[trigger] t[i]).id@ == id;
            assert(s[i + 1] == t[i]);
        }
    }
}

proof fn lemma_pending_ids_members(registered: Seq<Seq<char>>, applied: Seq<AppliedMigration>)
    ensures
        forall|x: Seq<char>| #[trigger] pending_ids(registered, applied).contains(x) <==> (registered.contains(x)
            && applied_row(applied, x) is None),
    decreases registered.len(),
{
    if registered.len() > 0 {
        let init = registered.drop_last();
        lemma_pending_ids_members(init, applied);
        assert forall|x: Seq<char>| registered.contains(x) <==> (init.contains(x) || x == registered.last()) by {
            if registered.contains(x) {
                let i = choose|i: int| 0 <= i < registered.len() && registered[i] == x;
                if i < init.len() {
                    assert(init[i] == x);
                }
            }
            if init.contains(x) {
                let i = choose|i: int| 0 <= i < init.len() && init[i] == x;
                assert(registered[i] == x);
            }
        }
        let rest = pending_ids(init, applied);
        assert forall|x: Seq<char>| rest.push(registered.last()).contains(x) <==> (rest.contains(x) || x == registered.last()) by {
            if rest.push(registered.last()).contains(x) {
                let i = choose|i: int| 0 <= i < rest.len() + 1 && rest.push(registered.last())[i] == x;
                if i < rest.len() {
                    assert(rest[i] == x);
                }
            }
            if rest.contains(x) {
                let i = choose|i: int| 0 <= i < rest.len() && rest[i] == x;
                assert(rest.push(registered.last())[i] == x);
            }
            if x == registered.last() {
                assert(rest.push(registered.last())[rest.len() as int] == x);
            }
        }
        assert forall|x: Seq<char>| #[trigger] pending_ids(registered, applied).contains(x) <==> (registered.contains(x)
            && applied_row(applied, x) is None) by {
            assert(rest.contains(x) <==> (init.contains(x) && applied_row(applied, x) is None));
        }
    }
}

/// Applying the plan of `db:migrate` leaves nothing pending: once the
/// ledger also holds a row for each planned id, every registered migration
/// has a row.
pub proof fn law_migrate_plan_leaves_nothing_pending(
    registered: Seq<Seq<char>>,
    applied: Seq<AppliedMigration>,
    new_rows: Seq<AppliedMigration>,
)
    requires
        new_rows.map_values(|a: AppliedMigration| a.id@) == pending_ids(registered, applied),
    ensures
        pending_ids(registered, applied + new_rows).len() == 0,
{
    let after = applied + new_rows;
    lemma_pending_ids_members(registered, applied);
    lemma_pending_ids_members(registered, after);
    if pending_ids(registered, after).len() > 0 {
        let x = pending_ids(registered, after)[0];
        assert(pending_ids(registered, after).contains(x));
        lemma_applied_row_found(after, x);
        lemma_applied_row_found(applied, x);
        assert(registered.contains(x) && applied_row(after, x) is None);
        if applied_row(applied, x) is Some {
            let i = choose|i: int| 0 <= i < applied.len() && (#[trigger] applied[i]).id@ == x;
            assert(after[i] == applied[i]);
            assert(after[i].id@ == x);
        } else {
            assert(pending_ids(registered, applied).contains(x));
            let k = choose|k: int| 0 <= k < pending_ids(registered, applied).len() && pending_ids(registered, applied)[k] == x;
            assert(new_rows.map_values(|a: AppliedMigration| a.id@)[k] == new_rows[k].id@);
            assert(after[applied.len() + k] == new_rows[k]);
            assert(after[applied.len() + k].id@ == x);
        }
    }
}

proof fn lemma_latest_batch_bounds(applied: Seq<AppliedMigration>)
    ensures
        latest_batch_of(applied) is None <==> applied.len() == 0,
        latest_batch_of(applied) matches Some(m) ==> forall|i: int| 0 <= i < applied.len() ==> (#[trigger] applied[i]).batch <= m,
    decreases applied.len(),
{
    if applied.len() > 0 {
        lemma_latest_batch_bounds(applied.drop_last());
        assert forall|i: int| 0 <= i < applied.len() implies (#[trigger] applied[i]).batch <= latest_batch_of(applied)->Some_0 by {
            if i < applied.len() - 1 {
                assert(applied.drop_last()[i] == applied[i]);
            }
        }
    }
}

/// The batch that `db:migrate` opens comes after every batch of the ledger.
pub proof fn law_migrate_batch_follows_the_ledger(registered: Seq<Seq<char>>, applied: Seq<AppliedMigration>)
    requires
        latest_batch_of(applied) matches Some(b) ==> b < i64::MAX,
    ensures
        forall|i: int| 0 <= i < applied.len() ==> (#[trigger] applied[i]).batch < (match latest_batch_of(applied) {
            Some(b) => b + 1,
            None => 1,
        }),
{
    lemma_latest_batch_bounds(applied);
}

/// The message naming a seeder that is not registered.
pub open spec fn unknown_seeder_message(id: Seq<char>) -> Seq<char> {
    "seeder `"@ + id + "` is not registered"@
}

/// The first of `selected` that is not registered, if any.
pub open spec fn first_unregistered(selected: Seq<Seq<char>>, registered: Seq<Seq<char>>) -> Option<Seq<char>>
    decreases selected.len(),
{
    if selected.len() == 0 {
        None
    } else if !registered.contains(selected[0]) {
        Some(selected[0])
    } else {
        first_unregistered(selected.drop_first(), registered)
    }
}

/// The registered ids kept by `keep`, in registration order.
pub open spec fn selected_in_order(registered: Seq<Seq<char>>, selected: Seq<Seq<char>>) -> Seq<Seq<char>>
    decreases registered.len(),
{
    if registered.len() == 0 {
        Seq::empty()
    } else {
        let rest = selected_in_order(registered.drop_last(), selected);
        if selected.contains(registered.last()) {
            rest.push(registered.last())
        } else {
            rest
        }
    }
}

/// The seeders `db:seed` runs, in registration order: all of them, or the
/// selected ones (given in id order); a selected id that is not registered
/// is refused, the first in id order.
pub fn plan_seed(registered: &Vec<String>, selected: Option<&Vec<String>>) -> (r: Result<Vec<String>, Error>)
    requires
        selected matches Some(s) ==> strictly_sorted(views_of(s@)),
    ensures
        selected is None ==> (r matches Ok(ids) && views_of(ids@) == views_of(registered@)),
        selected matches Some(s) ==> match first_unregistered(views_of(s@), views_of(registered@)) {
            Some(id) => r matches Err(e) && e.is_plain() && e@ == unknown_seeder_message(id),
            None => r matches Ok(ids) && views_of(ids@) == selected_in_order(views_of(registered@), views_of(s@)),
        },
{
    match selected {
        None => Ok(clone_ids(registered)),
        Some(sel) => {
            let mut i: usize = 0;
            proof {
                assert(views_of(sel@).subrange(0, sel@.len() as int) =~= views_of(sel@));
            }
            while i < sel.len()
                invariant
                    selected == Some(sel),
                    i <= sel@.len(),
                    first_unregistered(views_of(sel@), views_of(registered@))
                        == first_unregistered(views_of(sel@).subrange(i as int, sel@.len() as int), views_of(registered@)),
                decreases sel@.len() - i,
            {
                let ghost tail = views_of(sel@).subrange(i as int, sel@.len() as int);
                proof {
                    assert(tail[0] == sel@[i as int]@);
                    assert(tail.drop_first() =~= views_of(sel@).subrange(i + 1, sel@.len() as int));
                }
                if !contains_id(registered, sel[i].as_str()) {
                    let mut m = owned("seeder `");
                    m.append(sel[i].as_str());
                    m.append("` is not registered");
                    return Err(Error::message(m));
                }
                i = i + 1;
            }
            proof {
                assert(views_of(sel@).subrange(sel@.len() as int, sel@.len() as int) =~= Seq::<Seq<char>>::empty());
            }
            let mut ids: Vec<String> = Vec::new();
            let mut j: usize = 0;
            while j < registered.len()
                invariant
                    j <= registered@.len(),
                    views_of(ids@) == selected_in_order(views_of(registered@).subrange(0, j as int), views_of(sel@)),
                decreases registered@.len() - j,
            {
                let ghost before = ids@;
                proof {
                    assert(views_of(registered@).subrange(0, j + 1).drop_last() =~= views_of(registered@).subrange(0, j as int));
                }
                if contains_id(sel, registered[j].as_str()) {
                    ids.push(registered[j].clone());
                    proof {
                        assert(views_of(ids@) =~= views_of(before).push(registered@[j as int]@));
                    }
                }
                j = j + 1;
            }
            proof {
                assert(views_of(registered@).subrange(0, j as int) =~= views_of(registered@));
            }
            Ok(ids)
        },
    }
}

/// The outcome of an operation run under the migration lock, once the lock
/// is released: the operation's own outcome when the release succeeds, the
/// release error when only the release fails, and both messages when both
/// fail.
pub fn finish_locked_operation<T>(result: Result<T, Error>, unlock: Result<(), Error>) -> (r: Result<T, Error>)
    ensures
        unlock is Ok ==> r == result,
        result is Ok && unlock is Err ==> r == Err::<T, Error>(unlock->Err_0),
        result is Err && unlock is Err ==> (r matches Err(e)
            && e.is_plain() && e@ == result->Err_0@ + "; advisory unlock failed: "@ + unlock->Err_0@),
{
    match (result, unlock) {
        (Ok(v), Ok(())) => Ok(v),
        (Err(e), Ok(())) => Err(e),
        (Ok(_), Err(u)) => Err(u),
        (Err(e), Err(u)) => {
            let mut m = e.message;
            m.append("; advisory unlock failed: ");
            m.append(u.message.as_str());
            Err(Error::message(m))
        },
    }
}

/// How often the migration lock is tried, in milliseconds.
pub const MIGRATION_LOCK_POLL_INTERVAL_MS: u64 = 200;

/// How often a wait for the migration lock is reported, in milliseconds.
pub const MIGRATION_LOCK_NOTICE_INTERVAL_MS: u64 = 5000;

/// What a wait for the migration lock does after one attempt.
#[derive(Debug, PartialEq, Eq, Structural)]
pub enum LockWaitStep {
    Acquired,
    TimedOut,
    Sleep(u64),
}

/// Whether the "still waiting" notice of a wait for the migration lock is
/// due: once the notice interval has passed since the last notice (or
/// since the wait began, for the first one). Times are milliseconds since
/// the wait began.
pub fn migration_lock_notice_due(elapsed_ms: u64, last_notice_ms: u64) -> (r: bool)
    ensures
        r == (elapsed_ms >= last_notice_ms + MIGRATION_LOCK_NOTICE_INTERVAL_MS),
{
    last_notice_ms <= elapsed_ms && elapsed_ms - last_notice_ms >= MIGRATION_LOCK_NOTICE_INTERVAL_MS
}

/// The next step of a wait for the migration lock: done when the lock was
/// acquired; refused once the timeout (if any, `0` being none) has passed;
/// otherwise a sleep of the poll interval, cut to what is left of the
/// timeout.
pub fn migration_lock_step(acquired: bool, elapsed_ms: u64, timeout_ms: u64) -> (r: LockWaitStep)
    ensures
        acquired ==> r == LockWaitStep::Acquired,
        !acquired && timeout_ms > 0 && elapsed_ms >= timeout_ms ==> r == LockWaitStep::TimedOut,
        !acquired && timeout_ms > 0 && elapsed_ms < timeout_ms ==> r == LockWaitStep::Sleep(
            if timeout_ms - elapsed_ms < MIGRATION_LOCK_POLL_INTERVAL_MS { (timeout_ms - elapsed_ms) as u64 } else { MIGRATION_LOCK_POLL_INTERVAL_MS },
        ),
        !acquired && timeout_ms == 0 ==> r == LockWaitStep::Sleep(MIGRATION_LOCK_POLL_INTERVAL_MS),
{
    if acquired {
        return LockWaitStep::Acquired;
    }
    if timeout_ms > 0 {
        if elapsed_ms >= timeout_ms {
            return LockWaitStep::TimedOut;
        }
        let remaining = timeout_ms - elapsed_ms;
        if remaining < MIGRATION_LOCK_POLL_INTERVAL_MS {
            LockWaitStep::Sleep(remaining)
        } else {
            LockWaitStep::Sleep(MIGRATION_LOCK_POLL_INTERVAL_MS)
        }
    } else {
        LockWaitStep::Sleep(MIGRATION_LOCK_POLL_INTERVAL_MS)
    }
}

/// The notice printed while waiting for the migration lock.
pub fn migration_lock_wait_notice(config: &DatabaseConfig) -> (r: String)
    ensures
        r@ == "waiting for migration advisory lock for schema `"@ + config.schema@ + "` and migration table `"@
            + config.migration_table@ + "`; another db:migrate or db:rollback process is likely running"@,
{
    let mut m = owned("waiting for migration advisory lock for schema `");
    m.append(config.schema.as_str());
    m.append("` and migration table `");
    m.append(config.migration_table.as_str());
    m.append("`; another db:migrate or db:rollback process is likely running");
    m
}

// ---------------------------------------------------------------------------
// Generated database files
// ---------------------------------------------------------------------------

/// The path of the first source, in order, whose id is not among `ids`.
pub open spec fn first_unlisted(sources: Seq<(String, String)>, ids: Seq<Seq<char>>) -> Option<Seq<char>>
    decreases sources.len(),
{
    if sources.len() == 0 {
        None
    } else if !ids.contains(sources[0].0@) {
        Some(sources[0].1@)
    } else {
        first_unlisted(sources.drop_first(), ids)
    }
}

/// The error for a database file that the running binary does not know.
pub open spec fn unregistered_file_message(kind: Seq<char>, path: Seq<char>) -> Seq<char> {
    kind + " file `"@ + path
        + "` exists but is not registered in the current binary; rebuild the app before running database lifecycle commands so the file is discovered"@
}

fn contains_text(ids: &Vec<String>, id: &str) -> (r: bool)
    ensures
        r == views_of(ids@).contains(id@),
{
    let mut i: usize = 0;
    while i < ids.len()
        invariant
            i <= ids@.len(),
            forall|j: int| 0 <= j < i ==> ids@[j]@ != id@,
        decreases ids@.len() - i,
    {
        if str_eq(ids[i].as_str(), id) {
            proof {
                assert(views_of(ids@)[i as int] == id@);
            }
            return true;
        }
        i = i + 1;
    }
    proof {
        if views_of(ids@).contains(id@) {
            let j = choose|j: int| 0 <= j < views_of(ids@).len() && views_of(ids@)[j] == id@;
            assert(ids@[j]@ == id@);
        }
    }
    false
}

fn first_unlisted_path(sources: &Vec<(String, String)>, ids: &Vec<String>, k: usize) -> (r: Option<String>)
    requires
        k <= sources.len(),
    ensures
        match first_unlisted(sources@.subrange(k as int, sources@.len() as int), views_of(ids@)) {
            Some(p) => r matches Some(q) && q@ == p,
            None => r is None,
        },
    decreases sources.len() - k,
{
    let ghost rest = sources@.subrange(k as int, sources@.len() as int);
    if k == sources.len() {
        return None;
    }
    proof {
        assert(rest[0] == sources@[k as int]);
        assert(rest.drop_first() =~= sources@.subrange(k + 1, sources@.len() as int));
    }
    if !contains_text(ids, sources[k].0.as_str()) {
        return Some(sources[k].1.clone());
    }
    first_unlisted_path(sources, ids, k + 1)
}

fn unregistered_file_error(kind: &str, path: &str) -> (e: Error)
    ensures
        e.is_plain(),
        e@ == unregistered_file_message(kind@, path@),
{
    let mut m = owned(kind);
    m.append(" file `");
    m.append(path);
    m.append(
        "` exists but is not registered in the current binary; rebuild the app before running database lifecycle commands so the file is discovered",
    );
    Error::message(m)
}

/// Every discovered migration and seeder file must be registered in the
/// running binary: the first migration file, else the first seeder file,
/// whose id is not registered is refused. Each source is its id and the
/// text of its path.
pub fn ensure_generated_database_is_registered(
    migration_ids: &Vec<String>,
    migration_sources: &Vec<(String, String)>,
    seeder_ids: &Vec<String>,
    seeder_sources: &Vec<(String, String)>,
) -> (r: Result<(), Error>)
    ensures
        match first_unlisted(migration_sources@, views_of(migration_ids@)) {
            Some(path) => r matches Err(e) && e.is_plain() && e@ == unregistered_file_message("migration"@, path),
            None => match first_unlisted(seeder_sources@, views_of(seeder_ids@)) {
                Some(path) => r matches Err(e) && e.is_plain() && e@ == unregistered_file_message("seeder"@, path),
                None => r is Ok,
            },
        },
{
    proof {
        assert(migration_sources@.subrange(0, migration_sources@.len() as int) =~= migration_sources@);
        assert(seeder_sources@.subrange(0, seeder_sources@.len() as int) =~= seeder_sources@);
    }
    if let Some(path) = first_unlisted_path(migration_sources, migration_ids, 0) {
        return Err(unregistered_file_error("migration", path.as_str()));
    }
    if let Some(path) = first_unlisted_path(seeder_sources, seeder_ids, 0) {
        return Err(unregistered_file_error("seeder", path.as_str()));
    }
    Ok(())
}

// ---------------------------------------------------------------------------
// Command output
// ---------------------------------------------------------------------------

/// The line `db:migrate` prints for its outcome.
pub fn migrate_summary_line(count: usize, batch: Option<i64>) -> (r: String)
    requires
        count <= u64::MAX,
    ensures
        r@ == match batch {
            Some(b) => "applied "@ + dec(count as nat) + " migration(s) in batch "@ + idec(b as int),
            None => "applied 0 migration(s)"@,
        },
{
    match batch {
        Some(b) => {
            let mut line = owned("applied ");
            push_decimal(&mut line, count as u64);
            line.append(" migration(s) in batch ");
            push_signed_decimal(&mut line, b);
            line
        },
        None => owned("applied 0 migration(s)"),
    }
}

/// The line `db:rollback` prints for its outcome.
pub fn rollback_summary_line(count: usize, batch: Option<i64>) -> (r: String)
    requires
        count <= u64::MAX,
    ensures
        r@ == match batch {
            Some(b) => "reverted "@ + dec(count as nat) + " migration(s) from batch "@ + idec(b as int),
            None => "reverted 0 migration(s)"@,
        },
{
    match batch {
        Some(b) => {
            let mut line = owned("reverted ");
            push_decimal(&mut line, count as u64);
            line.append(" migration(s) from batch ");
            push_signed_decimal(&mut line, b);
            line
        },
        None => owned("reverted 0 migration(s)"),
    }
}

/// The line `db:seed` prints for its outcome.
pub fn seed_summary_line(count: usize) -> (r: String)
    requires
        count <= u64::MAX,
    ensures
        r@ == "ran "@ + dec(count as nat) + " seeder(s)"@,
{
    let mut line = owned("ran ");
    push_decimal(&mut line, count as u64);
    line.append(" seeder(s)");
    line
}

/// The line of a registered migration in the plain status listing.
pub open spec fn status_line(s: MigrationStatus) -> Seq<char> {
    match s.applied {
        Some(a) => s.id@ + " | Applied | batch "@ + idec(a.batch as int) + " | "@ + a.applied_at@,
        None => s.id@ + " | Pending"@,
    }
}

/// The line of an unregistered ledger row in the plain status listing.
pub open spec fn missing_line(a: AppliedMigration) -> Seq<char> {
    a.id@ + " | MissingApplied | batch "@ + idec(a.batch as int) + " | "@ + a.applied_at@
}

/// The plain listing of `db:migrate:status`: one line per registered
/// migration, then one per unregistered ledger row.
pub fn migration_status_lines(report: &MigrationStatusReport) -> (r: Vec<String>)
    ensures
        r@.len() == report.statuses@.len() + report.missing_applied@.len(),
        forall|i: int| 0 <= i < report.statuses@.len() ==> (#[trigger] r@[i])@ == status_line(report.statuses@[i]),
        forall|i: int| 0 <= i < report.missing_applied@.len() ==> (#[trigger] r@[report.statuses@.len() + i])@
            == missing_line(report.missing_applied@[i]),
{
    let mut lines: Vec<String> = Vec::new();
    let mut i: usize = 0;
    while i < report.statuses.len()
        invariant
            i <= report.statuses@.len(),
            lines@.len() == i,
            forall|j: int| 0 <= j < i ==> (#[trigger] lines@[j])@ == status_line(report.statuses@[j]),
        decreases report.statuses@.len() - i,
    {
        let status = &report.statuses[i];
        let mut line = status.id.clone();
        match &status.applied {
            Some(a) => {
                line.append(" | Applied | batch ");
                push_signed_decimal(&mut line, a.batch);
                line.append(" | ");
                line.append(a.applied_at.as_str());
            },
            None => {
                line.append(" | Pending");
            },
        }
        lines.push(line);
        i = i + 1;
    }
    let n = report.statuses.len();
    let mut k: usize = 0;
    while k < report.missing_applied.len()
        invariant
            n == report.statuses@.len(),
            k <= report.missing_applied@.len(),
            lines@.len() == n + k,
            forall|j: int| 0 <= j < n ==> (#[trigger] lines@[j])@ == status_line(report.statuses@[j]),
            forall|j: int| 0 <= j < k ==> (#[trigger] lines@[n + j])@ == missing_line(report.missing_applied@[j]),
        decreases report.missing_applied@.len() - k,
    {
        let a = &report.missing_applied[k];
        let mut line = a.id.clone();
        line.append(" | MissingApplied | batch ");
        push_signed_decimal(&mut line, a.batch);
        line.append(" | ");
        line.append(a.applied_at.as_str());
        lines.push(line);
        k = k + 1;
    }
    lines
}

} // verus!
