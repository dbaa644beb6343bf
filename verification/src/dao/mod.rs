//! Database access: table-name whitelist and the choice of target.
pub mod ado;
pub mod mssql;
pub mod row;

use vstd::prelude::*;
use crate::config::{DatabaseCfg, enabled_spec};
use crate::error::{DaoError, DaoErrorView};
use crate::text::chars_of;
use self::mssql::{SqlServerDao, new_spec};

verus! {

/// `[A-Za-z0-9_]`.
pub open spec fn table_char(c: char) -> bool {
    ('a' <= c && c <= 'z') || ('A' <= c && c <= 'Z') || ('0' <= c && c <= '9') || c == '_'
}

/// A table name that is safe to put into DDL: 1 to 128 characters of
/// `[A-Za-z0-9_]`.
pub open spec fn valid_table_name(name: Seq<char>) -> bool {
    &&& 1 <= name.len() <= 128
    &&& forall|i: int| 0 <= i < name.len() ==> table_char(#[trigger] name[i])
}

/// Whitelists table names so that the DDL never holds unsafe SQL.
pub fn validate_table_name(name: &str) -> (res: Result<(), DaoError>)
    ensures
        match res {
            Ok(()) => valid_table_name(name@),
            Err(e) => !valid_table_name(name@) && e@ == DaoErrorView::InvalidTable(name@),
        },
{
    let cs = chars_of(name);
    if cs.len() == 0 || cs.len() > 128 {
        return Err(DaoError::InvalidTable(name.to_owned()));
    }
    let mut i: usize = 0;
    while i < cs.len()
        invariant
            i <= cs.len(),
            cs@ == name@,
            forall|k: int| 0 <= k < i ==> table_char(#[trigger] cs@[k]),
        decreases cs.len() - i,
    {
        let c = cs[i];
        if !(('a' <= c && c <= 'z') || ('A' <= c && c <= 'Z') || ('0' <= c && c <= '9') || c == '_') {
            proof {
                assert(!table_char(cs@[i as int]));
            }
            return Err(DaoError::InvalidTable(name.to_owned()));
        }
        i = i + 1;
    }
    Ok(())
}

/// A database target that writes nothing: a dry run counts rows but never
/// touches the database.
#[derive(Debug, Default)]
pub struct NoopDao;

/// The outcome of choosing a database target: the target must be switched
/// on, and only `mssql` is implemented.
pub open spec fn make_dao_spec(cfg: &DatabaseCfg) -> Result<(Seq<char>, Seq<char>), DaoErrorView> {
    if !enabled_spec(cfg, cfg.target@) {
        Err(DaoErrorView::GateClosed(cfg.target@))
    } else if cfg.target@ == "mssql"@ {
        new_spec(cfg.conn@, cfg.table@)
    } else {
        Err(DaoErrorView::NotImplemented(cfg.target@))
    }
}

/// Builds the database access object that the configuration names.
pub fn make_dao(cfg: &DatabaseCfg) -> (res: Result<SqlServerDao, DaoError>)
    ensures
        match res {
            Ok(d) => make_dao_spec(cfg) == Ok::<(Seq<char>, Seq<char>), DaoErrorView>((d.ado@, d.table@)),
            Err(e) => make_dao_spec(cfg) == Err::<(Seq<char>, Seq<char>), DaoErrorView>(e@),
        },
{
    if !cfg.is_enabled(cfg.target.as_str()) {
        return Err(DaoError::GateClosed(cfg.target.clone()));
    }
    let t = chars_of(cfg.target.as_str());
    if crate::text::chars_equal_str(&t, "mssql") {
        SqlServerDao::new(cfg.conn.as_str(), cfg.table.as_str())
    } else {
        Err(DaoError::NotImplemented(cfg.target.clone()))
    }
}

/// A database target is built only when it is switched on, only for
/// `mssql`, and only with a table name that is safe to put into DDL.
pub proof fn law_dao_only_when_enabled_and_safe_table(cfg: &DatabaseCfg)
    ensures
        make_dao_spec(cfg) matches Ok((conn, table)) ==> {
            &&& enabled_spec(cfg, cfg.target@)
            &&& cfg.target@ == "mssql"@
            &&& valid_table_name(table)
            &&& table == cfg.table@
            &&& conn == cfg.conn@
        },
{
}

} // verus!
