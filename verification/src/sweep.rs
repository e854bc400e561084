//! The expiry sweep's decisions: gather every page of the bucket listing
//! into one sequence, decode the expiry instant embedded in each key, and
//! select for deletion every object whose expiry is at or before a single
//! captured "now". Any key that fails to decode is fatal to the whole
//! sweep.

use vstd::prelude::*;

use crate::errors::CoreError;
use crate::keys;
use crate::storage::{list_page_of, parse_listing_page};

verus! {

/// An object key paired with the expiry instant decoded from it.
pub struct ExpiryRecord {
    pub key: String,
    pub expiry_ms: u64,
}

/// The accumulating listing of one sweep: every page's keys, in listing
/// order, gathered before any deletion decision is made.
pub struct SweepListing {
    pub keys: Vec<String>,
}

/// Every listed key decodes to an expiry instant.
pub open spec fn all_keys_decode(keys: Seq<Seq<char>>) -> bool {
    forall|i: int| 0 <= i < keys.len() ==> keys::key_expiry_spec(#[trigger] keys[i]) is Some
}

/// The keys to delete: those of the records whose expiry instant is at or
/// before `now_ms`, kept in listing order.
pub open spec fn expired_keys(records: Seq<ExpiryRecord>, now_ms: u64) -> Seq<Seq<char>>
    decreases records.len(),
{
    if records.len() == 0 {
        Seq::<Seq<char>>::empty()
    } else {
        let rest = expired_keys(records.drop_last(), now_ms);
        if records.last().expiry_ms <= now_ms {
            rest.push(records.last().key@)
        } else {
            rest
        }
    }
}

impl SweepListing {
    /// Opens an empty listing.
    pub fn new() -> (s: Self)
        ensures
            s.keys@.len() == 0,
    {
        SweepListing { keys: Vec::new() }
    }

    /// Ingests one page of the bucket listing: appends the page's keys in
    /// order and hands back the continuation token that fetches the next
    /// page, if there is one.
    pub fn ingest_page(&mut self, body: &str) -> (r: Result<Option<String>, CoreError>)
        ensures
            r is Ok <==> list_page_of(body@) is Some,
            r is Ok ==> final(self).keys.deep_view() == old(self).keys.deep_view()
                + (list_page_of(body@)->0).0,
            r is Ok ==> (r->Ok_0).deep_view() == (list_page_of(body@)->0).1,
            r is Err ==> final(self).keys == old(self).keys && r->Err_0 is Protocol,
    {
        match parse_listing_page(body) {
            Ok((mut page_keys, token)) => {
                let ghost old_keys = self.keys@;
                let ghost page = page_keys@;
                self.keys.append(&mut page_keys);
                proof {
                    assert(self.keys.deep_view() =~= old(self).keys.deep_view()
                        + (list_page_of(body@)->0).0);
                }
                Ok(token)
            },
            Err(e) => Err(e),
        }
    }

    /// Decodes the expiry instant embedded in every listed key, in order.
    /// The first key that does not decode aborts the sweep with a codec
    /// error naming that key.
    pub fn decode_all(&self) -> (r: Result<Vec<ExpiryRecord>, CoreError>)
        ensures
            r is Ok <==> all_keys_decode(self.keys.deep_view()),
            r is Ok ==> {
                let recs = r->Ok_0@;
                &&& recs.len() == self.keys@.len()
                &&& forall|i: int|
                    0 <= i < recs.len() ==> (#[trigger] recs[i]).key@ == self.keys.deep_view()[i]
                        && Some(recs[i].expiry_ms) == keys::key_expiry_spec(
                        self.keys.deep_view()[i],
                    )
            },
            r is Err ==> r->Err_0 is Codec,
    {
        let mut recs: Vec<ExpiryRecord> = Vec::new();
        let n = self.keys.len();
        let mut i: usize = 0;
        while i < n
            invariant
                i <= n,
                n == self.keys@.len(),
                recs@.len() == i,
                forall|k: int|
                    0 <= k < i ==> (#[trigger] recs@[k]).key@ == self.keys.deep_view()[k]
                        && Some(recs@[k].expiry_ms) == keys::key_expiry_spec(
                        self.keys.deep_view()[k],
                    ),
            decreases n - i,
        {
            let key = &self.keys[i];
            match keys::key_expiry(key.as_str()) {
                Some(expiry_ms) => {
                    recs.push(ExpiryRecord { key: key.clone(), expiry_ms });
                },
                None => {
                    proof {
                        assert(keys::key_expiry_spec(self.keys.deep_view()[i as int]) is None);
                    }
                    return Err(CoreError::Codec(key.clone()));
                },
            }
            i = i + 1;
        }
        proof {
            assert forall|k: int| 0 <= k < n implies keys::key_expiry_spec(
                #[trigger] self.keys.deep_view()[k],
            ) is Some by {
                assert(Some(recs@[k].expiry_ms) == keys::key_expiry_spec(
                    self.keys.deep_view()[k],
                ));
            }
        }
        Ok(recs)
    }
}

/// Selects the keys to delete: every record whose expiry instant is at or
/// before the sweep's single captured "now", in listing order.
pub fn select_expired(records: &Vec<ExpiryRecord>, now_ms: u64) -> (r: Vec<String>)
    ensures
        r.deep_view() == expired_keys(records@, now_ms),
{
    let mut r: Vec<String> = Vec::new();
    let n = records.len();
    let mut i: usize = 0;
    while i < n
        invariant
            i <= n,
            n == records@.len(),
            r.deep_view() == expired_keys(records@.subrange(0, i as int), now_ms),
        decreases n - i,
    {
        let ghost pre = records@.subrange(0, i as int);
        let ghost cur = records@.subrange(0, i + 1);
        proof {
            assert(cur.drop_last() =~= pre);
            assert(cur.last() == records@[i as int]);
        }
        if records[i].expiry_ms <= now_ms {
            let ghost before = r.deep_view();
            r.push(records[i].key.clone());
            proof {
                assert(r.deep_view() =~= before.push(records@[i as int].key@));
            }
        }
        i = i + 1;
    }
    proof {
        assert(records@.subrange(0, n as int) =~= records@);
    }
    r
}

} // verus!
