//! The asset store's mutations: appending a freshly drawn random asset and
//! removing the asset at the current selection. Both work on the collection
//! as loaded from the backing file; reading and writing that file is the
//! caller's business.

use vstd::prelude::*;
use crate::model::{alnum_char, plain_seq, Asset, AssetV, Error};
use crate::selection::Selection;
use rand::Rng;

verus! {

/// The half-open range the store draws asset ids from.
pub open spec fn id_bound() -> nat {
    9999999
}

/// Relies on rand::Rng::gen_range on the range `0..n`: the result is drawn
/// uniformly and is strictly below `n`.
#[verifier::external_body]
fn random_below(n: u64) -> (r: u64)
    requires
        n > 0,
    ensures
        r < n,
{
    rand::thread_rng().gen_range(0..n)
}

/// Relies on rand's Alphanumeric distribution: every sampled byte is an
/// ASCII letter or digit.
#[verifier::external_body]
fn random_name(len: usize) -> (r: String)
    ensures
        r@.len() == len,
        forall|i: int| 0 <= i < r@.len() ==> alnum_char(#[trigger] r@[i]),
{
    rand::thread_rng().sample_iter(rand::distributions::Alphanumeric).take(len).map(
        char::from,
    ).collect()
}

/// Relies on chrono::Utc::now and DateTime::to_rfc3339: the current UTC
/// time as an RFC 3339 timestamp, whose characters are printable ASCII
/// holding no quote and no backslash.
#[verifier::external_body]
fn now_timestamp() -> (r: String)
    ensures
        plain_seq(r@),
{
    chrono::Utc::now().to_rfc3339()
}

/// The category strings an asset can carry.
pub open spec fn is_category(s: Seq<char>) -> bool {
    s == ("hardware")@ || s == ("software")@
}

/// What the store guarantees of every freshly drawn asset.
pub open spec fn fresh_asset(a: AssetV) -> bool {
    &&& a.wf()
    &&& a.id < id_bound()
    &&& a.name.len() == 10
    &&& forall|i: int| 0 <= i < a.name.len() ==> alnum_char(#[trigger] a.name[i])
    &&& is_category(a.category)
    &&& 1 <= a.vulnerabilities < 15
}

/// Draw a fresh random asset: id below the id bound, a ten-character
/// alphanumeric name, a category drawn from the two categories, a
/// vulnerability count in `[1, 15)`, and the current time as timestamp.
fn draw_asset() -> (a: Asset)
    ensures
        fresh_asset(a@),
{
    let id = random_below(9999999);
    let name = random_name(10);
    let pick = random_below(2);
    let category = if pick == 0 {
        "hardware".to_owned()
    } else {
        "software".to_owned()
    };
    let vulnerabilities = 1 + random_below(14);
    let created_at = now_timestamp();
    proof {
        reveal_strlit("hardware");
        reveal_strlit("software");
        assert(plain_seq(("hardware")@));
        assert(plain_seq(("software")@));
        assert(plain_seq(name@)) by {
            assert(forall|i: int| 0 <= i < name@.len() ==> alnum_char(#[trigger] name@[i]));
        };
    }
    Asset { id, name, category, vulnerabilities, created_at }
}

/// Append a freshly drawn random asset. Nothing else moves: the assets
/// already there keep their places, and the new one stands at the end.
pub fn add_random_asset_to_db(assets: &mut Vec<Asset>)
    ensures
        final(assets)@.len() == old(assets)@.len() + 1,
        final(assets)@.subrange(0, old(assets)@.len() as int) == old(assets)@,
        fresh_asset(final(assets)@.last()@),
{
    let a = draw_asset();
    assets.push(a);
    proof {
        assert(assets@.subrange(0, old(assets)@.len() as int) =~= old(assets)@);
    }
}

/// Remove the asset the selection points at, and move the selection to the
/// previous row (or keep row 0). Fails with `IndexOutOfRange`, changing
/// nothing, exactly when the selection points past the end.
pub fn remove_asset_at_index(assets: &mut Vec<Asset>, selection: &mut Selection) -> (r: Result<
    (),
    Error,
>)
    ensures
        r is Ok <==> old(selection).index < old(assets)@.len(),
        r is Ok ==> final(assets)@ == old(assets)@.remove(old(selection).index as int)
            && final(selection).index == (if old(selection).index > 0 {
            old(selection).index - 1
        } else {
            0int
        }),
        r is Err ==> r == Err::<(), Error>(Error::IndexOutOfRange) && *final(assets) == *old(
            assets,
        ) && *final(selection) == *old(selection),
{
    let idx = selection.index;
    if idx >= assets.len() {
        return Err(Error::IndexOutOfRange);
    }
    assets.remove(idx);
    selection.on_remove(idx);
    Ok(())
}

/// Law: removing the element at `i` shrinks the collection by exactly one;
/// and when no other element shares the removed element's identity, no
/// element of the result carries that identity.
pub proof fn lemma_remove_identity(v: Seq<AssetV>, i: int)
    requires
        0 <= i < v.len(),
        forall|k: int|
            0 <= k < v.len() && k != i ==> (#[trigger] v[k]).identity() != v[i].identity(),
    ensures
        v.remove(i).len() == v.len() - 1,
        forall|k: int|
            0 <= k < v.remove(i).len() ==> (#[trigger] v.remove(i)[k]).identity()
                != v[i].identity(),
{
    v.remove_ensures(i);
    assert forall|k: int| 0 <= k < v.remove(i).len() implies (#[trigger] v.remove(
        i,
    )[k]).identity() != v[i].identity() by {
        if k < i {
            assert(v.remove(i)[k] == v[k]);
        } else {
            assert(v.remove(i)[k] == v[k + 1]);
        }
    };
}

} // verus!
