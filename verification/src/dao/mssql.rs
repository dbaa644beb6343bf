//! The SQL Server target: connection-string check and the SQL it sends.
use vstd::prelude::*;
use crate::error::{DaoError, DaoErrorView};
use crate::text::{chars_of, string_of, push_str_chars, push_decimal, nat_text};
use super::{validate_table_name, valid_table_name};
use super::ado::{trust_conflict, has_trust_conflict};

verus! {

/// Rows per `INSERT` statement.
pub const INSERT_CHUNK: usize = 500;

/// What `tiberius::Config::from_ado_string` says of a connection string: no
/// error, or the message of its error.
pub uninterp spec fn ado_parse_error(conn: Seq<char>) -> Option<Seq<char>>;

/// Calls `tiberius::Config::from_ado_string` and keeps only whether it
/// failed, and its error's message. The contract claims only that this is the
/// outcome named above. That function panics when the string sets
/// `TrustServerCertificate` to true and also names `TrustServerCertificateCA`
/// (its builder's `trust_cert_ca` panics after `trust_cert`); such strings
/// are ruled out by `trust_conflict`, which holds of every one of them.
#[verifier::external_body]
fn check_ado_string(conn: &str) -> (res: Option<String>)
    requires
        !trust_conflict(conn@),
    ensures
        match ado_parse_error(conn@) {
            None => res is None,
            Some(m) => res matches Some(x) && x@ == m,
        },
{
    match tiberius::Config::from_ado_string(conn) {
        Ok(_) => None,
        Err(e) => Some(e.to_string()),
    }
}

/// The SQL Server target, with a validated table name and a connection string
/// that parses.
#[derive(Debug)]
pub struct SqlServerDao {
    pub ado: String,
    pub table: String,
}

/// The message for a connection string that sets both trust options.
pub open spec fn trust_conflict_message() -> Seq<char> {
    "parsing connection string: TrustServerCertificate and TrustServerCertificateCA are mutually exclusive"@
}

/// What `SqlServerDao::new` gives: `InvalidTable` for a bad table name, a
/// `Db` error for a connection string that may set both trust options, a
/// `Db` error with the parser's message for a connection string that does
/// not parse, else the pair.
pub open spec fn new_spec(conn: Seq<char>, table: Seq<char>) -> Result<(Seq<char>, Seq<char>), DaoErrorView> {
    if !valid_table_name(table) {
        Err(DaoErrorView::InvalidTable(table))
    } else if trust_conflict(conn) {
        Err(DaoErrorView::Db(trust_conflict_message()))
    } else {
        match ado_parse_error(conn) {
            Some(m) => Err(DaoErrorView::Db("parsing connection string: "@ + m)),
            None => Ok((conn, table)),
        }
    }
}

/// The DDL that creates the target table.
pub open spec fn create_table_spec(table: Seq<char>) -> Seq<char> {
    "CREATE TABLE ["@ + table + "] (\n                caseid     NVARCHAR(64)  NOT NULL,\n                plant_name NVARCHAR(256) NULL,\n                shift_hour CHAR(8)       NOT NULL,\n                daily_kwh  DECIMAL(18,4) NULL\n            )"@
}

/// The placeholder group of row `i`: `(@P{4i+1},@P{4i+2},@P{4i+3},@P{4i+4})`.
pub open spec fn row_params(i: nat) -> Seq<char> {
    "(@P"@ + nat_text(4 * i + 1) + ",@P"@ + nat_text(4 * i + 2) + ",@P"@ + nat_text(4 * i + 3) + ",@P"@
        + nat_text(4 * i + 4) + ")"@
}

/// The placeholder groups of rows `0..n`, separated by commas.
pub open spec fn values_list(n: nat) -> Seq<char>
    decreases n,
{
    if n == 0 {
        Seq::empty()
    } else if n == 1 {
        row_params(0)
    } else {
        values_list((n - 1) as nat) + ","@ + row_params((n - 1) as nat)
    }
}

/// The parameterized `INSERT` of `n` rows.
pub open spec fn insert_spec(table: Seq<char>, n: nat) -> Seq<char> {
    "INSERT INTO ["@ + table + "] (caseid, plant_name, shift_hour, daily_kwh) VALUES "@ + values_list(n)
}

/// Appends the placeholder group of row `i`.
fn push_row_params(s: &mut Vec<char>, i: usize)
    requires
        i < INSERT_CHUNK,
    ensures
        final(s)@ == old(s)@ + row_params(i as nat),
{
    let base = (i * 4) as u64;
    let ghost s0 = s@;
    push_str_chars(s, "(@P");
    push_decimal(s, base + 1);
    let ghost s1 = s@;
    push_str_chars(s, ",@P");
    push_decimal(s, base + 2);
    let ghost s2 = s@;
    push_str_chars(s, ",@P");
    push_decimal(s, base + 3);
    let ghost s3 = s@;
    push_str_chars(s, ",@P");
    push_decimal(s, base + 4);
    push_str_chars(s, ")");
    proof {
        assert(s1 =~= s0 + "(@P"@ + nat_text((4 * i + 1) as nat));
        assert(s2 =~= s1 + ",@P"@ + nat_text((4 * i + 2) as nat));
        assert(s3 =~= s2 + ",@P"@ + nat_text((4 * i + 3) as nat));
        assert(s@ =~= s0 + row_params(i as nat));
    }
}

impl SqlServerDao {
    /// Validates the table name and parses the connection string eagerly, to
    /// fail fast.
    pub fn new(conn_str: &str, table: &str) -> (res: Result<Self, DaoError>)
        ensures
            match res {
                Ok(d) => new_spec(conn_str@, table@) == Ok::<(Seq<char>, Seq<char>), DaoErrorView>((d.ado@, d.table@)),
                Err(e) => new_spec(conn_str@, table@) == Err::<(Seq<char>, Seq<char>), DaoErrorView>(e@),
            },
    {
        match validate_table_name(table) {
            Err(e) => return Err(e),
            Ok(()) => {},
        }
        if has_trust_conflict(conn_str) {
            proof {
                reveal_strlit("parsing connection string: TrustServerCertificate and TrustServerCertificateCA are mutually exclusive");
            }
            return Err(DaoError::Db(
                "parsing connection string: TrustServerCertificate and TrustServerCertificateCA are mutually exclusive".to_owned(),
            ));
        }
        match check_ado_string(conn_str) {
            Some(m) => {
                let mut msg = chars_of("parsing connection string: ");
                push_str_chars(&mut msg, m.as_str());
                Err(DaoError::Db(string_of(msg.as_slice())))
            },
            None => Ok(SqlServerDao { ado: conn_str.to_owned(), table: table.to_owned() }),
        }
    }

    /// The DDL creating the table.
    pub fn create_table_sql(&self) -> (res: String)
        ensures
            res@ == create_table_spec(self.table@),
    {
        let mut s = chars_of("CREATE TABLE [");
        push_str_chars(&mut s, self.table.as_str());
        push_str_chars(
            &mut s,
            "] (\n                caseid     NVARCHAR(64)  NOT NULL,\n                plant_name NVARCHAR(256) NULL,\n                shift_hour CHAR(8)       NOT NULL,\n                daily_kwh  DECIMAL(18,4) NULL\n            )",
        );
        string_of(s.as_slice())
    }

    /// The `INSERT` statement for a chunk of `n` rows, four parameters per row.
    pub fn insert_sql(&self, n: usize) -> (res: String)
        requires
            n <= INSERT_CHUNK,
        ensures
            res@ == insert_spec(self.table@, n as nat),
    {
        let mut s = chars_of("INSERT INTO [");
        push_str_chars(&mut s, self.table.as_str());
        push_str_chars(&mut s, "] (caseid, plant_name, shift_hour, daily_kwh) VALUES ");
        let ghost prefix = s@;
        let mut i: usize = 0;
        while i < n
            invariant
                i <= n <= INSERT_CHUNK,
                s@ == prefix + values_list(i as nat),
            decreases n - i,
        {
            let ghost before = s@;
            if i > 0 {
                s.push(',');
            }
            push_row_params(&mut s, i);
            proof {
                reveal_strlit(",");
                if i > 0 {
                    assert(s@ =~= before + ","@ + row_params(i as nat));
                    assert(values_list((i + 1) as nat) == values_list(i as nat) + ","@ + row_params(i as nat));
                } else {
                    assert(s@ =~= before + row_params(0));
                }
            }
            i = i + 1;
        }
        string_of(s.as_slice())
    }
}

/// The bounds of chunk `k` when `len` rows are cut into chunks of `size`.
pub open spec fn chunk_at(len: nat, size: nat, k: int) -> (int, int) {
    (k * size, if (k + 1) * size <= len { (k + 1) * size } else { len as int })
}

/// Splits `len` rows into consecutive chunks of at most `size` rows
/// (`[T]::chunks`).
pub open spec fn chunk_ok(len: nat, size: nat, chunks: Seq<(usize, usize)>) -> bool {
    &&& chunks.len() == (if len == 0 { 0 } else { (len - 1) / (size as int) + 1 })
    &&& forall|k: int| 0 <= k < chunks.len() ==> (#[trigger] chunks[k]).0 == chunk_at(len, size, k).0
        && chunks[k].1 == chunk_at(len, size, k).1
}

/// The `(start, end)` bounds of the chunks of `len` rows.
pub fn chunk_bounds(len: usize, size: usize) -> (res: Vec<(usize, usize)>)
    requires
        size > 0,
    ensures
        chunk_ok(len as nat, size as nat, res@),
{
    let n_chunks: usize = if len == 0 { 0 } else { (len - 1) / size + 1 };
    let mut out: Vec<(usize, usize)> = Vec::new();
    let mut k: usize = 0;
    while k < n_chunks
        invariant
            size > 0,
            k <= n_chunks,
            n_chunks == (if len == 0 { 0 } else { (len - 1) / size as int + 1 }),
            out@.len() == k,
            forall|j: int| 0 <= j < k ==> (#[trigger] out@[j]).0 == chunk_at(len as nat, size as nat, j).0
                && out@[j].1 == chunk_at(len as nat, size as nat, j).1,
        decreases n_chunks - k,
    {
        let ghost old_out = out@;
        proof {
            assert(k * size <= len - 1) by (nonlinear_arith)
                requires
                    k < n_chunks,
                    n_chunks == (len - 1) / size as int + 1,
                    size > 0,
                    len >= 1,
            ;
        }
        let start = k * size;
        let end = if len - start > size { start + size } else { len };
        proof {
            assert((k + 1) * size == start + size) by (nonlinear_arith)
                requires
                    start == k * size,
            ;
            assert(end == chunk_at(len as nat, size as nat, k as int).1);
            assert(start == chunk_at(len as nat, size as nat, k as int).0);
        }
        out.push((start, end));
        proof {
            assert forall|j: int| 0 <= j < k + 1 implies (#[trigger] out@[j]).0 == chunk_at(len as nat, size as nat, j).0
                && out@[j].1 == chunk_at(len as nat, size as nat, j).1 by {
                if j < k {
                    assert(out@[j] == old_out[j]);
                } else {
                    assert(out@[j] == (start, end));
                }
            }
        }
        k = k + 1;
    }
    out
}

/// The chunks of an insert cover the rows in order, without gap or overlap:
/// the first starts at row 0, each starts where the previous ended, the last
/// ends at the last row, and none is empty or holds more than `size` rows.
pub proof fn law_chunks_cover_rows(len: nat, size: nat, chunks: Seq<(usize, usize)>)
    requires
        size > 0,
        chunk_ok(len, size, chunks),
    ensures
        len > 0 ==> chunks.len() > 0 && chunks[0].0 == 0 && chunks.last().1 == len,
        len == 0 ==> chunks.len() == 0,
        forall|k: int| 0 <= k < chunks.len() - 1 ==> (#[trigger] chunks[k]).1 == chunks[k + 1].0,
        forall|k: int| 0 <= k < chunks.len() ==> 0 < (#[trigger] chunks[k]).1 - chunks[k].0 <= size,
{
    if len > 0 {
        let n = chunks.len() as int;
        assert(n == (len - 1) / (size as int) + 1);
        assert(chunks[n - 1] == chunks[n - 1]);
        assert((n - 1) * size <= len - 1) by (nonlinear_arith)
            requires
                n == (len - 1) / (size as int) + 1,
                size > 0,
                len >= 1,
        ;
        assert(n * size >= len) by (nonlinear_arith)
            requires
                n == (len - 1) / (size as int) + 1,
                size > 0,
                len >= 1,
        ;
        assert(chunks.last().1 == len);
        assert forall|k: int| 0 <= k < chunks.len() implies 0 < (#[trigger] chunks[k]).1 - chunks[k].0 <= size by {
            assert(k * size <= (n - 1) * size) by (nonlinear_arith)
                requires
                    0 <= k < n,
                    size > 0,
            ;
            assert((k + 1) * size == k * size + size) by (nonlinear_arith);
        }
        assert forall|k: int| 0 <= k < chunks.len() - 1 implies (#[trigger] chunks[k]).1 == chunks[k + 1].0 by {
            assert((k + 1) * size <= (n - 1) * size) by (nonlinear_arith)
                requires
                    0 <= k < n - 1,
                    size > 0,
            ;
            assert(chunks[k + 1].0 == (k + 1) * size);
        }
    }
}

} // verus!
