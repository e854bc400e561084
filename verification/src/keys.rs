//! Object keys: `<identifier>/<display name>`. The identifier embeds the
//! expiry instant, so the instant can be read back from the key alone.

use vstd::prelude::*;

use crate::codec;

verus! {

/// The position of the first `/` in a key, or the key's length when there
/// is none.
pub open spec fn slash_pos(k: Seq<char>) -> int
    decreases k.len(),
{
    if k.len() == 0 {
        0
    } else if k[0] == '/' {
        0
    } else {
        1 + slash_pos(k.drop_first())
    }
}

/// The identifier part of a key: everything before the first `/`.
pub open spec fn key_id_part(k: Seq<char>) -> Seq<char> {
    k.subrange(0, slash_pos(k))
}

/// The expiry instant embedded in a key, if its identifier part decodes.
pub open spec fn key_expiry_spec(k: Seq<char>) -> Option<u64> {
    codec::decode_spec(key_id_part(k))
}

proof fn lemma_slash_pos_bounds(k: Seq<char>)
    ensures
        0 <= slash_pos(k) <= k.len(),
        slash_pos(k) < k.len() ==> k[slash_pos(k)] == '/',
        forall|j: int| 0 <= j < slash_pos(k) ==> k[j] != '/',
    decreases k.len(),
{
    if k.len() > 0 && k[0] != '/' {
        lemma_slash_pos_bounds(k.drop_first());
        assert forall|j: int| 0 <= j < slash_pos(k) implies k[j] != '/' by {
            if j > 0 {
                assert(k.drop_first()[j - 1] != '/');
            }
        }
    }
}

/// A prefix with no slash followed by a slash (or the end) pins the
/// position of the first slash.
proof fn lemma_slash_pos_at(k: Seq<char>, i: int)
    requires
        0 <= i <= k.len(),
        forall|j: int| 0 <= j < i ==> k[j] != '/',
        i < k.len() ==> k[i] == '/',
    ensures
        slash_pos(k) == i,
    decreases i,
{
    if k.len() == 0 {
    } else if i == 0 {
    } else {
        assert(k[0] != '/');
        assert forall|j: int| 0 <= j < i - 1 implies k.drop_first()[j] != '/' by {
            assert(k.drop_first()[j] == k[j + 1]);
        }
        if i - 1 < k.drop_first().len() {
            assert(k.drop_first()[i - 1] == k[i]);
        }
        lemma_slash_pos_at(k.drop_first(), i - 1);
    }
}

/// Builds the destination key for an upload: the identifier, a slash, the
/// display name.
pub fn make_object_key(id: &str, name: &str) -> (r: String)
    ensures
        r@ == id@ + "/"@ + name@,
{
    let mut out = String::from_str(id);
    out.append("/");
    out.append(name);
    out
}

/// Reads the expiry instant embedded in a key: decodes everything before
/// the first slash.
pub fn key_expiry(key: &str) -> (r: Option<u64>)
    ensures
        r == key_expiry_spec(key@),
{
    let n = key.unicode_len();
    let mut i: usize = 0;
    while i < n
        invariant
            0 <= i <= n,
            n == key@.len(),
            forall|j: int| 0 <= j < i ==> key@[j] != '/',
        ensures
            0 <= i <= n,
            forall|j: int| 0 <= j < i ==> key@[j] != '/',
            i < n ==> key@[i as int] == '/',
        decreases n - i,
    {
        if key.get_char(i) == '/' {
            break;
        }
        i = i + 1;
    }
    proof {
        lemma_slash_pos_at(key@, i as int);
    }
    let id = key.substring_char(0, i);
    codec::decode(id)
}

/// A key built from a decodable identifier decodes back to the
/// identifier's expiry instant: the identifier holds no slash, so the
/// key's identifier part is exactly the identifier.
pub proof fn lemma_key_round_trip(id: Seq<char>, name: Seq<char>)
    requires
        codec::decode_spec(id) is Some,
    ensures
        key_expiry_spec(id + "/"@ + name) == codec::decode_spec(id),
{
    let k = id + "/"@ + name;
    proof_slash_of_literal();
    assert(codec::digits_ok(id));
    assert forall|j: int| 0 <= j < id.len() implies k[j] != '/' by {
        assert(k[j] == id[j]);
        assert(codec::crock_index(id[j]) >= 0);
    }
    assert(k[id.len() as int] == '/');
    lemma_slash_pos_at(k, id.len() as int);
    assert(k.subrange(0, id.len() as int) =~= id);
}

proof fn proof_slash_of_literal()
    ensures
        "/"@.len() == 1,
        "/"@[0] == '/',
{
    reveal_strlit("/");
}

} // verus!
