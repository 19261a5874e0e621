//! Opening the catalog: where it stands, and which steps a database of a
//! given version still needs.
use vstd::prelude::*;
use crate::db::schema::{MIGRATIONS, SCHEMA_VERSION};
use crate::paths;
use crate::text;

verus! {

/// Default database location below a home directory: on the internal disk
/// (not the media volume), since SQLite WAL locking is unreliable on
/// external/network filesystems.
pub fn default_db_path(home: &str) -> (r: String)
    ensures
        r@ == paths::join_of(home@, "Library/Application Support/mediaserver/media.db"@),
{
    paths::join(home, "Library/Application Support/mediaserver/media.db")
}

/// Why a database cannot be used.
#[derive(Debug, Clone, Copy, PartialEq, Eq, Structural)]
pub enum OpenError {
    /// Its schema is of a later build.
    TooNew(i32),
    /// Its schema is not the one that a reader expects.
    Mismatch(i32),
}

impl OpenError {
    pub open spec fn told(&self) -> Seq<char> {
        match *self {
            OpenError::TooNew(v) => "database schema version "@ + text::decimal(v as int)
                + " is newer than this build supports ("@ + text::decimal(SCHEMA_VERSION as int)
                + ")"@,
            OpenError::Mismatch(v) => "database schema version "@ + text::decimal(v as int)
                + " != expected "@ + text::decimal(SCHEMA_VERSION as int)
                + "; run media-scanner once to migrate"@,
        }
    }

    /// The message for the log.
    pub fn message(&self) -> (r: String)
        ensures
            r@ == self.told(),
    {
        let mut out = "database schema version ".to_owned();
        match *self {
            OpenError::TooNew(v) => {
                out.push_str(text::dec(v as i64).as_str());
                out.push_str(" is newer than this build supports (");
                out.push_str(text::dec(SCHEMA_VERSION as i64).as_str());
                out.push_str(")");
            },
            OpenError::Mismatch(v) => {
                out.push_str(text::dec(v as i64).as_str());
                out.push_str(" != expected ");
                out.push_str(text::dec(SCHEMA_VERSION as i64).as_str());
                out.push_str("; run media-scanner once to migrate");
            },
        }
        out
    }
}

/// The transaction that takes a database from version `v` to the next one.
pub open spec fn step(v: int) -> Seq<char> {
    "BEGIN; "@ + MIGRATIONS@[v]@ + "; PRAGMA user_version = "@ + text::decimal(v + 1)
        + "; COMMIT;"@
}

/// The transactions that a database of this version still needs, in order:
/// none for a current one, an error for a later build's.
pub fn pending_migrations(version: i32) -> (r: Result<Vec<String>, OpenError>)
    requires
        version >= 0,
    ensures
        version > SCHEMA_VERSION ==> r == Err::<Vec<String>, OpenError>(OpenError::TooNew(version)),
        version <= SCHEMA_VERSION ==> (r matches Ok(steps) && text::texts(steps@) == Seq::new(
            (SCHEMA_VERSION - version) as nat,
            |i: int| step(version + i),
        )),
{
    if version > SCHEMA_VERSION {
        return Err(OpenError::TooNew(version));
    }
    let mut steps: Vec<String> = Vec::new();
    let mut v: i32 = version;
    while v < SCHEMA_VERSION
        invariant
            0 <= version <= v <= SCHEMA_VERSION,
            text::texts(steps@) == Seq::new((v - version) as nat, |i: int| step(version + i)),
        decreases SCHEMA_VERSION - v,
    {
        let mut sql = "BEGIN; ".to_owned();
        sql.push_str(MIGRATIONS[v as usize]);
        sql.push_str("; PRAGMA user_version = ");
        sql.push_str(text::dec((v + 1) as i64).as_str());
        sql.push_str("; COMMIT;");
        proof {
            text::lemma_texts_push(steps@, sql);
            assert(Seq::new((v + 1 - version) as nat, |i: int| step(version + i)) =~= Seq::new(
                (v - version) as nat,
                |i: int| step(version + i),
            ).push(step(v as int)));
        }
        steps.push(sql);
        v += 1;
    }
    Ok(steps)
}

/// What a reader asks of the version: exactly this build's.
pub fn check_version(version: i32) -> (r: Result<(), OpenError>)
    ensures
        r == (if version == SCHEMA_VERSION {
            Ok::<(), OpenError>(())
        } else {
            Err::<(), OpenError>(OpenError::Mismatch(version))
        }),
{
    if version != SCHEMA_VERSION {
        return Err(OpenError::Mismatch(version));
    }
    Ok(())
}

/// A migrated database is one that a reader accepts: from any version that
/// is not refused, the steps end at the version that `check_version` asks
/// for, each starting where the one before it ended.
pub proof fn migrating_satisfies_readers(version: int, steps: Seq<Seq<char>>)
    requires
        0 <= version <= SCHEMA_VERSION,
        steps == Seq::new((SCHEMA_VERSION - version) as nat, |i: int| step(version + i)),
    ensures
        version + steps.len() == SCHEMA_VERSION,
        forall|i: int| 0 <= i < steps.len() ==> #[trigger] steps[i] == step(version + i),
{
}

} // verus!
