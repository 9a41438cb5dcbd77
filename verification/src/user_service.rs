use vstd::prelude::*;

use crate::digits::dec_of;
use crate::digits::dec_at;
use crate::digits::parse_dec;
use crate::digits::u64_to_dec;
use crate::pgx::PgRow;

verus! {

/// One stored user, as the profile routes report it.
pub struct User {
    pub id: String,
    pub name: String,
    pub username: String,
}

/// The answer of a user listing: the page and the overall count.
pub struct UserResponse {
    pub data: Option<Vec<User>>,
    pub total: Option<i64>,
}

/// The fields an update may change.
pub struct UpdateUser {
    pub name: Option<String>,
    pub username: Option<String>,
}

/// The paging and filter parameters of a user listing.
pub struct QueryUser {
    pub q: Option<String>,
    pub limit: Option<u32>,
    pub offset: Option<u32>,
}

/// Reads one user out of a stored row.
pub fn user_from_row(row: &PgRow) -> (r: Option<User>)
    ensures
        match r {
            Some(u) => row@.len() >= 3 && u.id@ == row@[0] && u.name@ == row@[1] && u.username@
                == row@[2],
            None => row@.len() < 3,
        },
{
    if row.len() < 3 {
        return None;
    }
    Some(User { id: row.get(0), name: row.get(1), username: row.get(2) })
}

/// Whether a reported user carries exactly a stored row's columns.
pub open spec fn user_matches_row(u: User, row: Seq<Seq<char>>) -> bool {
    row.len() >= 3 && u.id@ == row[0] && u.name@ == row[1] && u.username@ == row[2]
}

/// Reads a whole page of stored rows into users, in order.
pub fn users_from_rows(rows: &Vec<PgRow>) -> (r: Option<Vec<User>>)
    ensures
        match r {
            Some(us) => us@.len() == rows@.len() && (forall|i: int|
                0 <= i < us@.len() ==> #[trigger] user_matches_row(us@[i], rows@[i]@)),
            None => exists|i: int| 0 <= i < rows@.len() && (#[trigger] rows@[i]@).len() < 3,
        },
{
    let n = rows.len();
    let mut us: Vec<User> = Vec::new();
    let mut i: usize = 0;
    while i < n
        invariant
            i <= n,
            n == rows@.len(),
            us@.len() == i,
            forall|m: int| 0 <= m < i ==> #[trigger] user_matches_row(us@[m], rows@[m]@),
        decreases n - i,
    {
        match user_from_row(&rows[i]) {
            None => {
                proof {
                    assert(0 <= i < rows@.len() && (rows@[i as int]@).len() < 3);
                }
                return None;
            },
            Some(u) => {
                let ghost pre = us@;
                let ghost uv = u;
                us.push(u);
                proof {
                    assert(us@ =~= pre.push(uv));
                    assert(us@[i as int] == uv);
                    assert(user_matches_row(uv, rows@[i as int]@));
                    assert forall|m: int| 0 <= m < i + 1 implies #[trigger] user_matches_row(
                        us@[m],
                        rows@[m]@,
                    ) by {
                        if m < i {
                            assert(us@[m] == pre[m]);
                            assert(user_matches_row(pre[m], rows@[m]@));
                        }
                    }
                }
            },
        }
        i = i + 1;
    }
    Some(us)
}

/// The listing statement for the given filter and page, and beside
/// it the statement that counts the filtered rows.
pub open spec fn users_query_of(q: Option<Seq<char>>, limit: u32, offset: u32) -> Seq<char> {
    users_filter_of("SELECT id, name, username FROM users"@, q) + " LIMIT "@ + dec_of(
        limit as nat,
    ) + " OFFSET "@ + dec_of(offset as nat)
}

pub open spec fn users_total_query_of(q: Option<Seq<char>>) -> Seq<char> {
    users_filter_of("SELECT COUNT(*)::TEXT as total FROM users"@, q)
}

pub open spec fn users_filter_of(base: Seq<char>, q: Option<Seq<char>>) -> Seq<char> {
    match q {
        Some(name) => base + " WHERE username ILIKE '%"@ + name + "%' OR name ILIKE '%"@ + name
            + "%'"@,
        None => base,
    }
}

/// The view of the filter field.
pub open spec fn filter_view(q: Option<&String>) -> Option<Seq<char>> {
    match q {
        Some(s) => Some(s@),
        None => None,
    }
}

/// Builds the two listing statements for a query, paging defaults
/// applied: ten rows from the start.
pub fn users_query(query: &QueryUser) -> (r: (String, String))
    ensures
        r.0@ == users_query_of(
            match query.q {
                Some(s) => Some(s@),
                None => None::<Seq<char>>,
            },
            match query.limit {
                Some(l) => l,
                None => 10u32,
            },
            match query.offset {
                Some(o) => o,
                None => 0u32,
            },
        ),
        r.1@ == users_total_query_of(
            match query.q {
                Some(s) => Some(s@),
                None => None::<Seq<char>>,
            },
        ),
{
    let limit: u32 = match &query.limit {
        Some(l) => *l,
        None => 10,
    };
    let offset: u32 = match &query.offset {
        Some(o) => *o,
        None => 0,
    };
    let mut sql = String::from_str("SELECT id, name, username FROM users");
    let mut total_sql = String::from_str("SELECT COUNT(*)::TEXT as total FROM users");
    match &query.q {
        Some(name) => {
            sql = append_filter(sql, name.as_str());
            total_sql = append_filter(total_sql, name.as_str());
        },
        None => {},
    }
    sql.append(" LIMIT ");
    sql.append(u64_to_dec(limit as u64).as_str());
    sql.append(" OFFSET ");
    sql.append(u64_to_dec(offset as u64).as_str());
    proof {
        assert(sql@ =~= users_query_of(
            match query.q {
                Some(s) => Some(s@),
                None => None::<Seq<char>>,
            },
            limit,
            offset,
        ));
    }
    (sql, total_sql)
}

/// Appends the name filter to a listing statement.
fn append_filter(base: String, name: &str) -> (r: String)
    ensures
        r@ == users_filter_of(base@, Some(name@)),
{
    let ghost b0 = base@;
    let mut r = base;
    r.append(" WHERE username ILIKE '%");
    r.append(name);
    r.append("%' OR name ILIKE '%");
    r.append(name);
    r.append("%'");
    proof {
        assert(r@ =~= users_filter_of(b0, Some(name@)));
    }
    r
}

/// The update statement: both columns set, keyed by id.
pub open spec fn update_user_query_text() -> Seq<char> {
    "UPDATE users SET name = $1, username = $2 WHERE id = $3"@
}

/// Builds the update statement for a profile change. Both fields
/// must be present, and an empty username is refused: there is
/// nothing sound to store for it.
pub fn update_user_query(user: &UpdateUser) -> (r: Option<String>)
    requires
        user.name is Some,
        user.username is Some,
    ensures
        match r {
            Some(s) => user.username->Some_0@.len() > 0 && s@ == update_user_query_text(),
            None => user.username->Some_0@.len() == 0,
        },
{
    match &user.username {
        Some(uname) => {
            if uname.as_str().is_empty() {
                None
            } else {
                Some(String::from_str("UPDATE users SET name = $1, username = $2 WHERE id = $3"))
            }
        },
        None => None,
    }
}

/// Reads the row count a counting statement returned: the decimal's
/// value when the text is one that fits, and zero for anything else.
pub fn parse_total(s: &str) -> (r: i64)
    ensures
        forall|v: u64|
            v <= i64::MAX as u64 && s@ == dec_of(v as nat) ==> r == v,
        (forall|v: u64| v <= i64::MAX as u64 ==> s@ != dec_of(v as nat)) ==> r == 0,
        r >= 0,
{
    let len = s.unicode_len();
    match parse_dec(s, 0) {
        None => {
            proof {
                assert forall|v2: u64|
                    v2 <= i64::MAX as u64 && s@ == dec_of(v2 as nat) implies false by {
                    assert(s@.subrange(0, s@.len() as int) =~= s@);
                    assert(dec_at(s@, 0, s@.len() as int, v2));
                }
            }
            0
        },
        Some((v, j)) => {
            if j == len && v <= 0x7fff_ffff_ffff_ffff {
                proof {
                    assert(s@.subrange(0, s@.len() as int) =~= s@);
                    assert(s@ == dec_of(v as nat));
                    assert forall|v2: u64|
                        v2 <= i64::MAX as u64 && s@ == dec_of(v2 as nat) implies v == v2 by {
                        assert(dec_at(s@, 0, s@.len() as int, v2));
                    }
                }
                v as i64
            } else {
                proof {
                    assert forall|v2: u64|
                        v2 <= i64::MAX as u64 && s@ == dec_of(v2 as nat) implies false by {
                        assert(s@.subrange(0, s@.len() as int) =~= s@);
                        assert(dec_at(s@, 0, s@.len() as int, v2));
                    }
                }
                0
            }
        },
    }
}

} // verus!
