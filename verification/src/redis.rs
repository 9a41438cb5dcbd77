use vstd::prelude::*;

use crate::digits::dec_at;
use crate::digits::dec_of;
use crate::digits::parse_dec;
use crate::digits::u64_to_dec;
use crate::pgx::Row;

verus! {

/// One answer of the fast key/value store, as plain text columns.
pub struct RedisRow {
    pub row: Vec<String>,
}

impl Row for RedisRow {

}

impl RedisRow {
    pub fn new(row: Vec<String>) -> (r: RedisRow)
        ensures
            r.row@ == row@,
    {
        RedisRow { row }
    }
}

/// The map a key/value log denotes: later writes win.
pub open spec fn map_of(entries: Seq<(String, String)>) -> Map<Seq<char>, Seq<char>>
    decreases entries.len(),
{
    if entries.len() == 0 {
        Map::empty()
    } else {
        map_of(entries.drop_last()).insert(entries.last().0@, entries.last().1@)
    }
}

/// The fast lookup store the revocation list lives in: a key/value
/// map with read-after-write consistency on this instance.
pub struct RedisImpl {
    entries: Vec<(String, String)>,
}

impl View for RedisImpl {
    type V = Map<Seq<char>, Seq<char>>;

    closed spec fn view(&self) -> Map<Seq<char>, Seq<char>> {
        map_of(self.entries@)
    }
}

impl RedisImpl {
    /// An empty store.
    pub fn new() -> (r: RedisImpl)
        ensures
            r@ == Map::<Seq<char>, Seq<char>>::empty(),
    {
        RedisImpl { entries: Vec::new() }
    }

    /// Writes one key. Writing is idempotent: a second identical
    /// write leaves the store as it was.
    pub fn execute(&mut self, key: &str, value: &str) -> (r: Result<u64, String>)
        ensures
            final (self)@ == old(self)@.insert(key@, value@),
            r == Ok::<u64, String>(1u64),
    {
        let pair = (key.to_owned(), value.to_owned());
        self.entries.push(pair);
        proof {
            assert(self.entries@.drop_last() =~= old(self).entries@);
        }
        Ok(1)
    }

    /// Reads one key: its value if the key was ever written, and the
    /// store's miss message otherwise.
    pub fn query_one(&self, key: &str) -> (r: Result<RedisRow, String>)
        ensures
            match r {
                Ok(row) => self@.contains_key(key@) && row.row@.len() == 1 && row.row@[0]@
                    == self@[key@],
                Err(e) => !self@.contains_key(key@),
            },
    {
        let n = self.entries.len();
        let mut i: usize = n;
        proof {
            assert(self.entries@.take(n as int) =~= self.entries@);
        }
        while i > 0
            invariant
                i <= n,
                n == self.entries@.len(),
                self@.contains_key(key@) == map_of(self.entries@.take(i as int)).contains_key(
                    key@,
                ),
                self@.contains_key(key@) ==> self@[key@] == map_of(
                    self.entries@.take(i as int),
                )[key@],
            decreases i,
        {
            proof {
                assert(self.entries@.take(i as int).drop_last() =~= self.entries@.take(i - 1));
                assert(self.entries@.take(i as int).last() == self.entries@[i - 1]);
            }
            if key_eq(&self.entries[i - 1].0, key) {
                let value = self.entries[i - 1].1.clone();
                let mut row: Vec<String> = Vec::new();
                row.push(value);
                return Ok(RedisRow::new(row));
            }
            i = i - 1;
        }
        proof {
            assert(self.entries@.take(0) =~= Seq::<(String, String)>::empty());
        }
        Err(miss_message())
    }

    /// The whole-range query of the original store interface: this
    /// store serves point lookups only, so it answers nothing.
    pub fn query(&self, _key: &str) -> (r: Vec<RedisRow>)
        ensures
            r@.len() == 0,
    {
        Vec::new()
    }
}

/// The message a missed lookup carries.
fn miss_message() -> String {
    String::from_str("no data in redis")
}

/// Whether a stored key equals the queried one.
fn key_eq(stored: &String, key: &str) -> (r: bool)
    ensures
        r == (stored@ == key@),
{
    let owned = key.to_owned();
    *stored == owned
}

/// A key/value log with every entry for `key` dropped.
pub open spec fn without_key(entries: Seq<(String, String)>, key: Seq<char>) -> Seq<
    (String, String),
> {
    entries.filter(|e: (String, String)| e.0@ != key)
}

/// Dropping a key from the log drops it from the map it denotes.
proof fn lemma_map_of_without_key(entries: Seq<(String, String)>, key: Seq<char>)
    ensures
        map_of(without_key(entries, key)) =~= map_of(entries).remove(key),
    decreases entries.len(),
{
    reveal(Seq::filter);
    if entries.len() == 0 {
    } else {
        let pre = entries.drop_last();
        let last = entries.last();
        lemma_map_of_without_key(pre, key);
        assert(without_key(entries, key) == if last.0@ != key {
            without_key(pre, key).push(last)
        } else {
            without_key(pre, key)
        });
        if last.0@ != key {
            let w = without_key(pre, key).push(last);
            assert(w.drop_last() =~= without_key(pre, key));
            assert(w.last() == last);
            assert(map_of(w) == map_of(without_key(pre, key)).insert(last.0@, last.1@));
        }
    }
}

impl RedisImpl {
    /// Forgets a key entirely: afterwards the store holds nothing
    /// for it.
    pub fn drop_key(&mut self, key: &str)
        ensures
            final (self)@ == old(self)@.remove(key@),
    {
        let n = self.entries.len();
        let mut kept: Vec<(String, String)> = Vec::new();
        let mut i: usize = 0;
        proof {
            reveal(Seq::filter);
            assert(self.entries@.take(0) =~= Seq::<(String, String)>::empty());
            assert(kept@ =~= without_key(self.entries@.take(0), key@));
        }
        while i < n
            invariant
                i <= n,
                n == self.entries@.len(),
                kept@ =~= without_key(self.entries@.take(i as int), key@),
            decreases n - i,
        {
            proof {
                reveal(Seq::filter);
                assert(self.entries@.take(i + 1).drop_last() =~= self.entries@.take(i as int));
                assert(self.entries@.take(i + 1).last() == self.entries@[i as int]);
            }
            if !key_eq(&self.entries[i].0, key) {
                let pair = (self.entries[i].0.clone(), self.entries[i].1.clone());
                kept.push(pair);
            }
            i = i + 1;
        }
        proof {
            assert(self.entries@.take(n as int) =~= self.entries@);
            lemma_map_of_without_key(self.entries@, key@);
        }
        self.entries = kept;
    }

    /// Records that a token identifier must no longer be honoured,
    /// keeping the token's own expiry as the marker: the entry is
    /// needed no longer than the token it vetoes. Idempotent: a
    /// second identical call leaves the store as it was.
    pub fn mark_revoked(&mut self, token_id: &str, expires_at: u64)
        ensures
            final (self)@ == old(self)@.insert(token_id@, dec_of(expires_at as nat)),
    {
        let marker = u64_to_dec(expires_at);
        let _ = self.execute(token_id, marker.as_str());
    }

    /// Whether the store still vetoes a token that can no longer
    /// pass verification anyway: the entry for the key carries an
    /// expiry that lies before `now`.
    pub open spec fn entry_expired(m: Map<Seq<char>, Seq<char>>, key: Seq<char>, now: u64) -> bool {
        m.contains_key(key) && exists|v: u64| m[key] == dec_of(v as nat) && v < now
    }

    /// Drops the entry for a token identifier once the expiry it
    /// carries has passed: an expired token fails verification on
    /// its own, so the veto is no longer needed and the store does
    /// not grow without bound. This is the in-process form of the
    /// lifetime a deployed fast store would attach to each entry.
    pub fn remove_expired(&mut self, token_id: &str, now: u64)
        ensures
            final (self)@ == if RedisImpl::entry_expired(old(self)@, token_id@, now) {
                old(self)@.remove(token_id@)
            } else {
                old(self)@
            },
    {
        let row = self.query_one(token_id);
        match row {
            Err(_) => {},
            Ok(row) => {
                let value = &row.row[0];
                let vlen = value.as_str().unicode_len();
                match parse_dec(value.as_str(), 0) {
                    None => {
                        proof {
                            lemma_not_full_dec(value@, self@[token_id@]);
                        }
                    },
                    Some((v, j)) => {
                        if j == vlen && v < now {
                            proof {
                                assert(value@.subrange(0, value@.len() as int) =~= value@);
                                assert(RedisImpl::entry_expired(self@, token_id@, now));
                            }
                            self.drop_key(token_id);
                        } else {
                            proof {
                                assert forall|v2: u64|
                                    self@[token_id@] == dec_of(v2 as nat) implies !(v2 < now) by {
                                    assert(value@.subrange(0, value@.len() as int) =~= value@);
                                    assert(dec_at(value@, 0, value@.len() as int, v2));
                                }
                            }
                        }
                    },
                }
            },
        }
    }

    /// Whether a token identifier was recorded as revoked. Absence
    /// only means "not known to be revoked": validity itself is the
    /// codec's business.
    pub fn is_revoked(&self, token_id: &str) -> (r: bool)
        ensures
            r == (self@.contains_key(token_id@) && self@[token_id@].len() > 0),
    {
        match self.query_one(token_id) {
            Ok(row) => !row.row[0].as_str().is_empty(),
            Err(_) => false,
        }
    }
}

/// A text no decimal reading fits is the rendering of no value.
proof fn lemma_not_full_dec(value: Seq<char>, same: Seq<char>)
    requires
        value == same,
        forall|v2: u64, j2: int| !dec_at(value, 0, j2, v2),
    ensures
        forall|v2: u64| same != dec_of(v2 as nat),
{
    assert forall|v2: u64| same != dec_of(v2 as nat) by {
        if same == dec_of(v2 as nat) {
            assert(value.subrange(0, value.len() as int) =~= value);
            assert(dec_at(value, 0, value.len() as int, v2));
        }
    }
}

/// Marking a key revoked twice is the same as marking it once.
pub proof fn lemma_mark_idempotent(m: Map<Seq<char>, Seq<char>>, k: Seq<char>, v: Seq<char>)
    ensures
        m.insert(k, v).insert(k, v) =~= m.insert(k, v),
{
}

} // verus!
