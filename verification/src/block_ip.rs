//! The rules of the block-list HTTP API: which requests to add or remove
//! blocked addresses are refused, and why, given the addresses already stored.

use vstd::prelude::*;
use crate::address::{is_dotted_quad, is_ipv4_text};

verus! {

/// A stored blocked address, as the API reports it.
#[derive(Debug, Clone)]
pub struct BlockedIp {
    pub id: i64,
    pub ipv4: String,
}

/// An address as a client sends it; the field may be missing.
#[derive(Debug, Clone)]
pub struct WriteIp {
    pub ipv4: Option<String>,
}

/// Why the API refuses a request.
#[derive(Debug, Clone, PartialEq, Eq)]
pub enum BlockIpError {
    /// A single request names no address.
    MissingAddress,
    /// A single request names a text that is not an IPv4 address.
    MalformedAddress,
    /// A single address to add is stored already.
    AlreadyBlocked,
    /// A single address to remove is not stored.
    NotBlocked,
    /// A batch holds the same entry twice (two missing addresses count too).
    DuplicateEntries,
    /// The first address of a batch that is not an IPv4 address.
    MalformedAddressIn(String),
    /// The first address of a batch to add that is stored already.
    AlreadyBlockedIn(String),
    /// The first address of a batch to remove that is not stored.
    NotBlockedIn(String),
}

impl BlockIpError {
    /// Whether the refusal is about the request itself rather than about
    /// what is stored.
    pub open spec fn spec_is_invalid_input(&self) -> bool {
        match self {
            BlockIpError::MissingAddress => true,
            BlockIpError::MalformedAddress => true,
            BlockIpError::DuplicateEntries => true,
            BlockIpError::MalformedAddressIn(_) => true,
            _ => false,
        }
    }

    /// Whether the refusal is about the request itself (an invalid input)
    /// rather than about what is stored (a database error).
    pub fn is_invalid_input(&self) -> (r: bool)
        ensures
            r == self.spec_is_invalid_input(),
    {
        match self {
            BlockIpError::MissingAddress => true,
            BlockIpError::MalformedAddress => true,
            BlockIpError::DuplicateEntries => true,
            BlockIpError::MalformedAddressIn(_) => true,
            _ => false,
        }
    }
}

/// Whether the text `a` is among the stored addresses.
pub open spec fn is_stored(stored: Seq<String>, a: Seq<char>) -> bool {
    exists|i: int| 0 <= i < stored.len() && #[trigger] stored[i]@ == a
}

/// The address that a single request names, if it names a well-formed one.
pub open spec fn single_request(req: WriteIp) -> Result<String, BlockIpError> {
    match req.ipv4 {
        None => Err(BlockIpError::MissingAddress),
        Some(s) => if is_dotted_quad(s@) {
            Ok(s)
        } else {
            Err(BlockIpError::MalformedAddress)
        },
    }
}

/// Whether a single address may be added to the stored ones.
pub open spec fn new_address_check(a: Seq<char>, stored: Seq<String>) -> Result<(), BlockIpError> {
    if is_stored(stored, a) {
        Err(BlockIpError::AlreadyBlocked)
    } else {
        Ok(())
    }
}

/// Whether a single address may be removed from the stored ones.
pub open spec fn known_address_check(a: Seq<char>, stored: Seq<String>) -> Result<
    (),
    BlockIpError,
> {
    if is_stored(stored, a) {
        Ok(())
    } else {
        Err(BlockIpError::NotBlocked)
    }
}

/// The address named by a single request to add or remove one, refused if
/// missing or not an IPv4 address.
pub fn requested_address(req: &WriteIp) -> (r: Result<String, BlockIpError>)
    ensures
        r == single_request(*req),
{
    match &req.ipv4 {
        None => Err(BlockIpError::MissingAddress),
        Some(s) => {
            if !is_ipv4_text(s.as_str()) {
                return Err(BlockIpError::MalformedAddress);
            }
            Ok(s.clone())
        },
    }
}

/// Whether `a` is among the stored addresses.
fn holds_address(stored: &Vec<String>, a: &String) -> (r: bool)
    ensures
        r == is_stored(stored@, a@),
{
    let n = stored.len();
    for i in 0..n
        invariant
            n == stored@.len(),
            forall|j: int| 0 <= j < i ==> stored@[j]@ != a@,
    {
        if stored[i] == *a {
            return true;
        }
    }
    false
}

/// Refuses to add an address that is stored already.
pub fn check_new_address(a: &String, stored: &Vec<String>) -> (r: Result<(), BlockIpError>)
    ensures
        r == new_address_check(a@, stored@),
{
    if holds_address(stored, a) {
        Err(BlockIpError::AlreadyBlocked)
    } else {
        Ok(())
    }
}

/// Refuses to remove an address that is not stored.
pub fn check_known_address(a: &String, stored: &Vec<String>) -> (r: Result<(), BlockIpError>)
    ensures
        r == known_address_check(a@, stored@),
{
    if holds_address(stored, a) {
        Ok(())
    } else {
        Err(BlockIpError::NotBlocked)
    }
}

/// The addresses of the stored rows, in order.
pub fn stored_addresses(rows: &Vec<BlockedIp>) -> (r: Vec<String>)
    ensures
        r@.len() == rows@.len(),
        forall|i: int| 0 <= i < rows@.len() ==> #[trigger] r@[i] == rows@[i].ipv4,
{
    let n = rows.len();
    let mut r: Vec<String> = Vec::new();
    for i in 0..n
        invariant
            n == rows@.len(),
            r@.len() == i,
            forall|j: int| 0 <= j < i ==> #[trigger] r@[j] == rows@[j].ipv4,
    {
        r.push(rows[i].ipv4.clone());
    }
    r
}

/// The address an entry names, by its text.
pub open spec fn entry_view(e: WriteIp) -> Option<Seq<char>> {
    match e.ipv4 {
        Some(s) => Some(s@),
        None => None,
    }
}

/// Whether two entries of a batch are the same.
pub open spec fn has_repeated_entry(entries: Seq<WriteIp>) -> bool {
    exists|i: int, j: int|
        0 <= i < j < entries.len() && entry_view(entries[i]) == entry_view(entries[j])
}

/// The addresses that a batch names, in order, missing ones left out.
pub open spec fn given_addresses(entries: Seq<WriteIp>) -> Seq<String>
    decreases entries.len(),
{
    if entries.len() == 0 {
        Seq::<String>::empty()
    } else {
        let rest = given_addresses(entries.drop_last());
        match entries.last().ipv4 {
            Some(s) => rest.push(s),
            None => rest,
        }
    }
}

/// Whether two entries are the same.
fn same_entry(a: &WriteIp, b: &WriteIp) -> (r: bool)
    ensures
        r == (entry_view(*a) == entry_view(*b)),
{
    match (&a.ipv4, &b.ipv4) {
        (None, None) => true,
        (Some(x), Some(y)) => *x == *y,
        _ => false,
    }
}

/// The addresses a batch names, in order and missing ones left out; refused
/// if the batch holds the same entry twice. An empty result means there is
/// nothing to do.
pub fn requested_addresses(entries: &Vec<WriteIp>) -> (r: Result<Vec<String>, BlockIpError>)
    ensures
        has_repeated_entry(entries@) ==> r == Err::<Vec<String>, BlockIpError>(
            BlockIpError::DuplicateEntries,
        ),
        !has_repeated_entry(entries@) ==> (r matches Ok(v) && v@ == given_addresses(entries@)),
{
    let n = entries.len();
    for i in 0..n
        invariant
            n == entries@.len(),
            forall|a: int, b: int|
                0 <= a < b < i ==> entry_view(entries@[a]) != entry_view(entries@[b]),
    {
        for j in 0..i
            invariant
                n == entries@.len(),
                i < n,
                forall|b: int| 0 <= b < j ==> entry_view(entries@[b]) != entry_view(entries@[i as int]),
        {
            if same_entry(&entries[j], &entries[i]) {
                return Err(BlockIpError::DuplicateEntries);
            }
        }
    }
    let mut r: Vec<String> = Vec::new();
    for i in 0..n
        invariant
            n == entries@.len(),
            !has_repeated_entry(entries@),
            r@ == given_addresses(entries@.take(i as int)),
    {
        assert(entries@.take(i + 1).drop_last() =~= entries@.take(i as int));
        match &entries[i].ipv4 {
            Some(s) => r.push(s.clone()),
            None => {},
        }
    }
    assert(entries@.take(n as int) =~= entries@);
    Ok(r)
}

/// Why a batch to add is refused, if it is: the first address, in order,
/// that is not an IPv4 address or is stored already.
pub open spec fn batch_write_check(addrs: Seq<String>, stored: Seq<String>) -> Result<
    (),
    BlockIpError,
>
    decreases addrs.len(),
{
    if addrs.len() == 0 {
        Ok(())
    } else {
        match batch_write_check(addrs.drop_last(), stored) {
            Err(e) => Err(e),
            Ok(_) => {
                let a = addrs.last();
                if !is_dotted_quad(a@) {
                    Err(BlockIpError::MalformedAddressIn(a))
                } else if is_stored(stored, a@) {
                    Err(BlockIpError::AlreadyBlockedIn(a))
                } else {
                    Ok(())
                }
            },
        }
    }
}

/// Why a batch to remove is refused, if it is: the first address, in order,
/// that is not an IPv4 address or is not stored.
pub open spec fn batch_delete_check(addrs: Seq<String>, stored: Seq<String>) -> Result<
    (),
    BlockIpError,
>
    decreases addrs.len(),
{
    if addrs.len() == 0 {
        Ok(())
    } else {
        match batch_delete_check(addrs.drop_last(), stored) {
            Err(e) => Err(e),
            Ok(_) => {
                let a = addrs.last();
                if !is_dotted_quad(a@) {
                    Err(BlockIpError::MalformedAddressIn(a))
                } else if !is_stored(stored, a@) {
                    Err(BlockIpError::NotBlockedIn(a))
                } else {
                    Ok(())
                }
            },
        }
    }
}

/// Once a prefix of a batch is refused, the whole batch is refused the same way.
proof fn lemma_batch_error_persists(addrs: Seq<String>, stored: Seq<String>, k: int)
    requires
        0 <= k <= addrs.len(),
        batch_write_check(addrs.take(k), stored) is Err || batch_delete_check(addrs.take(k), stored) is Err,
    ensures
        batch_write_check(addrs.take(k), stored) is Err ==> batch_write_check(addrs, stored)
            == batch_write_check(addrs.take(k), stored),
        batch_delete_check(addrs.take(k), stored) is Err ==> batch_delete_check(addrs, stored)
            == batch_delete_check(addrs.take(k), stored),
    decreases addrs.len() - k,
{
    if k < addrs.len() {
        assert(addrs.take(k + 1).drop_last() =~= addrs.take(k));
        lemma_batch_error_persists(addrs, stored, k + 1);
    } else {
        assert(addrs.take(k) =~= addrs);
    }
}

/// Checks a batch of addresses to add against the stored ones.
pub fn check_new_addresses(addrs: &Vec<String>, stored: &Vec<String>) -> (r: Result<
    (),
    BlockIpError,
>)
    ensures
        r == batch_write_check(addrs@, stored@),
{
    let n = addrs.len();
    for i in 0..n
        invariant
            n == addrs@.len(),
            batch_write_check(addrs@.take(i as int), stored@) is Ok,
    {
        assert(addrs@.take(i + 1).drop_last() =~= addrs@.take(i as int));
        assert(addrs@.take(i + 1).last() == addrs@[i as int]);
        let a = &addrs[i];
        if !is_ipv4_text(a.as_str()) {
            proof {
                lemma_batch_error_persists(addrs@, stored@, i + 1);
            }
            return Err(BlockIpError::MalformedAddressIn(a.clone()));
        }
        if holds_address(stored, a) {
            proof {
                lemma_batch_error_persists(addrs@, stored@, i + 1);
            }
            return Err(BlockIpError::AlreadyBlockedIn(a.clone()));
        }
    }
    assert(addrs@.take(n as int) =~= addrs@);
    Ok(())
}

/// Checks a batch of addresses to remove against the stored ones.
pub fn check_known_addresses(addrs: &Vec<String>, stored: &Vec<String>) -> (r: Result<
    (),
    BlockIpError,
>)
    ensures
        r == batch_delete_check(addrs@, stored@),
{
    let n = addrs.len();
    for i in 0..n
        invariant
            n == addrs@.len(),
            batch_delete_check(addrs@.take(i as int), stored@) is Ok,
    {
        assert(addrs@.take(i + 1).drop_last() =~= addrs@.take(i as int));
        assert(addrs@.take(i + 1).last() == addrs@[i as int]);
        let a = &addrs[i];
        if !is_ipv4_text(a.as_str()) {
            proof {
                lemma_batch_error_persists(addrs@, stored@, i + 1);
            }
            return Err(BlockIpError::MalformedAddressIn(a.clone()));
        }
        if !holds_address(stored, a) {
            proof {
                lemma_batch_error_persists(addrs@, stored@, i + 1);
            }
            return Err(BlockIpError::NotBlockedIn(a.clone()));
        }
    }
    assert(addrs@.take(n as int) =~= addrs@);
    Ok(())
}

/// A batch to add is accepted exactly when every one of its addresses is an
/// IPv4 address that a single request could add: all or nothing.
pub proof fn lemma_batch_write_all_or_nothing(addrs: Seq<String>, stored: Seq<String>)
    ensures
        batch_write_check(addrs, stored) is Ok <==> forall|i: int|
            0 <= i < addrs.len() ==> is_dotted_quad(#[trigger] addrs[i]@) && new_address_check(
                addrs[i]@,
                stored,
            ) is Ok,
    decreases addrs.len(),
{
    if addrs.len() > 0 {
        let pre = addrs.drop_last();
        lemma_batch_write_all_or_nothing(pre, stored);
        let last = addrs.len() - 1;
        let good = forall|i: int|
            0 <= i < addrs.len() ==> is_dotted_quad(#[trigger] addrs[i]@) && new_address_check(
                addrs[i]@,
                stored,
            ) is Ok;
        if good {
            assert forall|i: int| 0 <= i < pre.len() implies is_dotted_quad(#[trigger] pre[i]@)
                && new_address_check(pre[i]@, stored) is Ok by {
                assert(pre[i] == addrs[i]);
            }
            assert(is_dotted_quad(addrs[last]@));
        }
        if !good {
            let i = choose|i: int|
                0 <= i < addrs.len() && !(is_dotted_quad(#[trigger] addrs[i]@) && new_address_check(
                    addrs[i]@,
                    stored,
                ) is Ok);
            if i < last {
                assert(pre[i] == addrs[i]);
                assert(!(is_dotted_quad(pre[i]@) && new_address_check(pre[i]@, stored) is Ok));
            }
        }
    }
}

/// A batch to remove is accepted exactly when every one of its addresses is
/// an IPv4 address that a single request could remove: all or nothing.
pub proof fn lemma_batch_delete_all_or_nothing(addrs: Seq<String>, stored: Seq<String>)
    ensures
        batch_delete_check(addrs, stored) is Ok <==> forall|i: int|
            0 <= i < addrs.len() ==> is_dotted_quad(#[trigger] addrs[i]@) && known_address_check(
                addrs[i]@,
                stored,
            ) is Ok,
    decreases addrs.len(),
{
    if addrs.len() > 0 {
        let pre = addrs.drop_last();
        lemma_batch_delete_all_or_nothing(pre, stored);
        let last = addrs.len() - 1;
        let good = forall|i: int|
            0 <= i < addrs.len() ==> is_dotted_quad(#[trigger] addrs[i]@) && known_address_check(
                addrs[i]@,
                stored,
            ) is Ok;
        if good {
            assert forall|i: int| 0 <= i < pre.len() implies is_dotted_quad(#[trigger] pre[i]@)
                && known_address_check(pre[i]@, stored) is Ok by {
                assert(pre[i] == addrs[i]);
            }
            assert(is_dotted_quad(addrs[last]@));
        }
        if !good {
            let i = choose|i: int|
                0 <= i < addrs.len() && !(is_dotted_quad(#[trigger] addrs[i]@) && known_address_check(
                    addrs[i]@,
                    stored,
                ) is Ok);
            if i < last {
                assert(pre[i] == addrs[i]);
                assert(!(is_dotted_quad(pre[i]@) && known_address_check(pre[i]@, stored) is Ok));
            }
        }
    }
}

/// Once an address that may be added is stored, it may be removed, and a
/// second request to add it is refused as already blocked.
pub proof fn lemma_added_address_is_known(a: String, stored: Seq<String>)
    requires
        new_address_check(a@, stored) is Ok,
    ensures
        known_address_check(a@, stored.push(a)) is Ok,
        new_address_check(a@, stored.push(a)) == Err::<(), BlockIpError>(
            BlockIpError::AlreadyBlocked,
        ),
{
    assert(stored.push(a)[stored.len() as int]@ == a@);
}

/// The stored rows that remain once every row holding the text `a` is removed.
pub open spec fn without_address(stored: Seq<String>, a: Seq<char>) -> Seq<String> {
    stored.filter(|s: String| s@ != a)
}

/// Once every row holding a removable address is removed, the address is no
/// longer known, and it may be added again.
pub proof fn lemma_removed_address_is_new(a: String, stored: Seq<String>)
    requires
        known_address_check(a@, stored) is Ok,
    ensures
        known_address_check(a@, without_address(stored, a@)) == Err::<(), BlockIpError>(
            BlockIpError::NotBlocked,
        ),
        new_address_check(a@, without_address(stored, a@)) is Ok,
{
    let rest = without_address(stored, a@);
    assert forall|i: int| 0 <= i < rest.len() implies #[trigger] rest[i]@ != a@ by {
        assert(rest.contains(rest[i]));
    }
}

/// Every address that a batch names is the address of one of its entries.
proof fn lemma_given_addresses_from_entries(entries: Seq<WriteIp>)
    ensures
        forall|k: int|
            0 <= k < given_addresses(entries).len() ==> exists|i: int|
                0 <= i < entries.len() && entry_view(entries[i]) == Some(
                    #[trigger] given_addresses(entries)[k]@,
                ),
    decreases entries.len(),
{
    if entries.len() > 0 {
        let pre = entries.drop_last();
        lemma_given_addresses_from_entries(pre);
        let g = given_addresses(entries);
        let gp = given_addresses(pre);
        assert forall|k: int| 0 <= k < g.len() implies exists|i: int|
            0 <= i < entries.len() && entry_view(entries[i]) == Some(#[trigger] g[k]@) by {
            if k < gp.len() {
                assert(g[k] == gp[k]);
                let i = choose|i: int| 0 <= i < pre.len() && entry_view(pre[i]) == Some(gp[k]@);
                assert(entries[i] == pre[i]);
            } else {
                assert(entry_view(entries[entries.len() - 1]) == Some(g[k]@));
            }
        }
    }
}

/// A batch without repeated entries names every address at most once, so a
/// batch never adds or removes the same address twice.
pub proof fn lemma_given_addresses_distinct(entries: Seq<WriteIp>)
    requires
        !has_repeated_entry(entries),
    ensures
        forall|i: int, j: int|
            0 <= i < j < given_addresses(entries).len() ==> #[trigger] given_addresses(entries)[i]@
                != #[trigger] given_addresses(entries)[j]@,
    decreases entries.len(),
{
    if entries.len() > 0 {
        let pre = entries.drop_last();
        assert(!has_repeated_entry(pre)) by {
            if has_repeated_entry(pre) {
                let (i, j) = choose|i: int, j: int|
                    0 <= i < j < pre.len() && entry_view(pre[i]) == entry_view(pre[j]);
                assert(entries[i] == pre[i] && entries[j] == pre[j]);
            }
        }
        lemma_given_addresses_distinct(pre);
        lemma_given_addresses_from_entries(pre);
        let g = given_addresses(entries);
        let gp = given_addresses(pre);
        assert forall|i: int, j: int| 0 <= i < j < g.len() implies #[trigger] g[i]@
            != #[trigger] g[j]@ by {
            if j < gp.len() {
                assert(g[i] == gp[i] && g[j] == gp[j]);
            } else {
                assert(g[i] == gp[i]);
                let k = choose|k: int| 0 <= k < pre.len() && entry_view(pre[k]) == Some(gp[i]@);
                assert(entries[k] == pre[k]);
                assert(entry_view(entries[entries.len() - 1]) == Some(g[j]@));
            }
        }
    }
}

/// Adding an address is refused as already blocked exactly when some stored
/// row, at any position, holds the same text; otherwise it is allowed.
pub proof fn lemma_new_address_refused_iff_stored(a: Seq<char>, stored: Seq<String>)
    ensures
        new_address_check(a, stored) == Err::<(), BlockIpError>(BlockIpError::AlreadyBlocked)
            <==> exists|i: int| 0 <= i < stored.len() && stored[i]@ == a,
        new_address_check(a, stored) is Ok <==> forall|i: int|
            0 <= i < stored.len() ==> stored[i]@ != a,
        new_address_check(a, stored) is Ok || new_address_check(a, stored) == Err::<
            (),
            BlockIpError,
        >(BlockIpError::AlreadyBlocked),
{
}

/// Removing an address is allowed exactly when some stored row, at any
/// position, holds the same text; otherwise it is refused as not blocked.
pub proof fn lemma_known_address_allowed_iff_stored(a: Seq<char>, stored: Seq<String>)
    ensures
        known_address_check(a, stored) is Ok <==> exists|i: int|
            0 <= i < stored.len() && stored[i]@ == a,
        known_address_check(a, stored) == Err::<(), BlockIpError>(BlockIpError::NotBlocked)
            <==> forall|i: int| 0 <= i < stored.len() ==> stored[i]@ != a,
        known_address_check(a, stored) is Ok || known_address_check(a, stored) == Err::<
            (),
            BlockIpError,
        >(BlockIpError::NotBlocked),
{
}

/// Whether the first `k` addresses of a batch to add are IPv4 addresses
/// equal to no stored row.
pub open spec fn addable_prefix(addrs: Seq<String>, stored: Seq<String>, k: int) -> bool {
    forall|j: int|
        0 <= j < k ==> is_dotted_quad(#[trigger] addrs[j]@) && (forall|i: int|
            0 <= i < stored.len() ==> stored[i]@ != addrs[j]@)
}

/// Whether the first `k` addresses of a batch to remove are IPv4 addresses
/// each equal to some stored row.
pub open spec fn removable_prefix(addrs: Seq<String>, stored: Seq<String>, k: int) -> bool {
    forall|j: int|
        0 <= j < k ==> is_dotted_quad(#[trigger] addrs[j]@) && (exists|i: int|
            0 <= i < stored.len() && stored[i]@ == addrs[j]@)
}

/// A batch to add is accepted exactly when each of its addresses is an IPv4
/// address equal to no stored row (at any position); and where the
/// addresses before position `k` are so and the one at `k` is an IPv4
/// address equal to some stored row, the batch is refused naming it.
pub proof fn lemma_batch_write_refuses_stored(addrs: Seq<String>, stored: Seq<String>, k: int)
    ensures
        batch_write_check(addrs, stored) is Ok <==> addable_prefix(addrs, stored, addrs.len() as int),
        0 <= k < addrs.len() && addable_prefix(addrs, stored, k) && is_dotted_quad(addrs[k]@) && (
        exists|i: int| 0 <= i < stored.len() && stored[i]@ == addrs[k]@) ==> batch_write_check(
            addrs,
            stored,
        ) == Err::<(), BlockIpError>(BlockIpError::AlreadyBlockedIn(addrs[k])),
{
    lemma_batch_write_all_or_nothing(addrs, stored);
    if 0 <= k < addrs.len() && addable_prefix(addrs, stored, k) && is_dotted_quad(addrs[k]@) && (
    exists|i: int| 0 <= i < stored.len() && stored[i]@ == addrs[k]@) {
        let pre = addrs.take(k);
        lemma_batch_write_all_or_nothing(pre, stored);
        assert forall|j: int| 0 <= j < pre.len() implies is_dotted_quad(#[trigger] pre[j]@)
            && new_address_check(pre[j]@, stored) is Ok by {
            assert(pre[j] == addrs[j]);
            assert(is_dotted_quad(addrs[j]@));
        }
        assert(addrs.take(k + 1).drop_last() =~= pre);
        assert(addrs.take(k + 1).last() == addrs[k]);
        lemma_batch_error_persists(addrs, stored, k + 1);
    }
}

/// A batch to remove is accepted exactly when each of its addresses is an
/// IPv4 address equal to some stored row (at any position); and where the
/// addresses before position `k` are so and the one at `k` is an IPv4
/// address equal to no stored row, the batch is refused naming it.
pub proof fn lemma_batch_delete_needs_stored(addrs: Seq<String>, stored: Seq<String>, k: int)
    ensures
        batch_delete_check(addrs, stored) is Ok <==> removable_prefix(
            addrs,
            stored,
            addrs.len() as int,
        ),
        0 <= k < addrs.len() && removable_prefix(addrs, stored, k) && is_dotted_quad(addrs[k]@)
            && (forall|i: int| 0 <= i < stored.len() ==> stored[i]@ != addrs[k]@)
            ==> batch_delete_check(addrs, stored) == Err::<(), BlockIpError>(
            BlockIpError::NotBlockedIn(addrs[k]),
        ),
{
    lemma_batch_delete_all_or_nothing(addrs, stored);
    if 0 <= k < addrs.len() && removable_prefix(addrs, stored, k) && is_dotted_quad(addrs[k]@)
        && (forall|i: int| 0 <= i < stored.len() ==> stored[i]@ != addrs[k]@) {
        let pre = addrs.take(k);
        lemma_batch_delete_all_or_nothing(pre, stored);
        assert forall|j: int| 0 <= j < pre.len() implies is_dotted_quad(#[trigger] pre[j]@)
            && known_address_check(pre[j]@, stored) is Ok by {
            assert(pre[j] == addrs[j]);
            assert(is_dotted_quad(addrs[j]@));
        }
        assert(addrs.take(k + 1).drop_last() =~= pre);
        assert(addrs.take(k + 1).last() == addrs[k]);
        lemma_batch_error_persists(addrs, stored, k + 1);
    }
}

/// A one-entry batch names the entry's address if it has one, and nothing
/// otherwise.
pub proof fn lemma_given_addresses_single(e: WriteIp)
    ensures
        e.ipv4 matches Some(a) ==> given_addresses(seq![e]) == seq![a],
        e.ipv4 is None ==> given_addresses(seq![e]) == Seq::<String>::empty(),
{
    assert(seq![e].drop_last() =~= Seq::<WriteIp>::empty());
    assert(given_addresses(seq![e].drop_last()) == Seq::<String>::empty());
    assert(seq![e].last() == e);
    if let Some(a) = e.ipv4 {
        assert(Seq::<String>::empty().push(a) =~= seq![a]);
    }
}

/// The addresses of two batches put one after the other are those of the
/// first followed by those of the second: no entry is lost, moved or added.
pub proof fn lemma_given_addresses_concat(x: Seq<WriteIp>, y: Seq<WriteIp>)
    ensures
        given_addresses(x + y) == given_addresses(x) + given_addresses(y),
    decreases y.len(),
{
    if y.len() == 0 {
        assert(x + y =~= x);
        assert(given_addresses(x) + given_addresses(y) =~= given_addresses(x));
    } else {
        lemma_given_addresses_concat(x, y.drop_last());
        assert((x + y).drop_last() =~= x + y.drop_last());
        assert((x + y).last() == y.last());
        match y.last().ipv4 {
            Some(a) => {
                assert(given_addresses(x) + given_addresses(y.drop_last()).push(a) =~= (
                given_addresses(x) + given_addresses(y.drop_last())).push(a));
            },
            None => {},
        }
    }
}

/// Every entry with an address contributes it: the batch names as many
/// addresses as it has entries with one, and each such entry's address is
/// among them.
pub proof fn lemma_given_addresses_cover_entries(entries: Seq<WriteIp>)
    ensures
        forall|i: int|
            0 <= i < entries.len() && (#[trigger] entries[i]).ipv4 is Some ==> given_addresses(
                entries,
            ).contains(entries[i].ipv4->Some_0),
        given_addresses(entries).len() <= entries.len(),
    decreases entries.len(),
{
    if entries.len() > 0 {
        let pre = entries.drop_last();
        lemma_given_addresses_cover_entries(pre);
        let g = given_addresses(entries);
        let gp = given_addresses(pre);
        assert forall|i: int|
            0 <= i < entries.len() && (#[trigger] entries[i]).ipv4 is Some implies g.contains(
                entries[i].ipv4->Some_0,
            ) by {
            if i < entries.len() - 1 {
                assert(entries[i] == pre[i]);
                let k = choose|k: int| 0 <= k < gp.len() && gp[k] == pre[i].ipv4->Some_0;
                assert(g[k] == gp[k]);
            } else {
                assert(g[g.len() - 1] == entries[i].ipv4->Some_0);
            }
        }
    }
}

/// A single request is accepted only for a text that is, as a whole, an
/// IPv4 address: one to three ASCII digits, a dot, and so on four times,
/// nothing before or after; its text is the request's own. A missing
/// address is refused as missing, and any other text as malformed.
pub proof fn lemma_accepted_request_is_whole_address(req: WriteIp)
    ensures
        single_request(req) matches Ok(s) ==> req.ipv4 == Some(s) && (exists|d1: int, d2: int, d3: int|
            {
                &&& 1 <= d1 <= 3
                &&& d1 + 2 <= d2 <= d1 + 4
                &&& d2 + 2 <= d3 <= d2 + 4
                &&& d3 + 2 <= s@.len() <= d3 + 4
                &&& s@[d1] == '.' && s@[d2] == '.' && s@[d3] == '.'
                &&& forall|i: int|
                    0 <= i < s@.len() && i != d1 && i != d2 && i != d3 ==> '0' <= #[trigger] s@[i]
                        && s@[i] <= '9'
            }),
        req.ipv4 is None ==> single_request(req) == Err::<String, BlockIpError>(
            BlockIpError::MissingAddress,
        ),
        req.ipv4 is Some && single_request(req) is Err ==> single_request(req) == Err::<
            String,
            BlockIpError,
        >(BlockIpError::MalformedAddress),
{
    if single_request(req) is Ok {
        let s = single_request(req)->Ok_0;
        crate::address::lemma_dotted_quad_shape(s@);
    }
}

} // verus!
