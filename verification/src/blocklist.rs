//! The set of blocked source addresses that the XDP program consults, and
//! its loading from the stored address texts.

use vstd::prelude::*;
use crate::address::{parse_ipv4, std_ipv4_addr};

verus! {

/// Capacity that the kernel map of blocked addresses is declared with.
pub const MAX_BLOCKED_IPS: usize = 1024;

/// Adding a new address to a block list that already holds
/// [`MAX_BLOCKED_IPS`] addresses.
#[derive(Debug, Clone, Copy, PartialEq, Eq)]
pub struct BlockListFull;

/// A set of blocked IPv4 addresses (first octet most significant), at most
/// [`MAX_BLOCKED_IPS`] of them.
pub struct BlockList {
    addrs: Vec<u32>,
}

impl BlockList {
    #[verifier::type_invariant]
    spec fn inv(self) -> bool {
        &&& self.addrs@.no_duplicates()
        &&& self.addrs@.len() <= MAX_BLOCKED_IPS
    }

    /// The blocked addresses.
    pub closed spec fn addresses(&self) -> Set<u32> {
        self.addrs@.to_set()
    }

    pub fn new() -> (r: Self)
        ensures
            r@ == Set::<u32>::empty(),
    {
        let r = BlockList { addrs: Vec::new() };
        assert(r.addrs@.to_set() =~= Set::<u32>::empty());
        r
    }

    /// The number of blocked addresses.
    pub fn len(&self) -> (r: usize)
        ensures
            self@.finite(),
            r == self@.len(),
            r <= MAX_BLOCKED_IPS,
    {
        proof {
            use_type_invariant(self);
            self.addrs@.unique_seq_to_set();
        }
        self.addrs.len()
    }

    /// The blocked addresses, each once.
    pub fn to_vec(&self) -> (r: Vec<u32>)
        ensures
            r@.to_set() == self@,
            r@.no_duplicates(),
    {
        proof {
            use_type_invariant(self);
        }
        let n = self.addrs.len();
        let mut r: Vec<u32> = Vec::new();
        for i in 0..n
            invariant
                n == self.addrs@.len(),
                r@ == self.addrs@.take(i as int),
        {
            r.push(self.addrs[i]);
            assert(r@ =~= self.addrs@.take(i + 1));
        }
        assert(r@ =~= self.addrs@);
        r
    }

    /// Whether `addr` is blocked.
    pub fn contains(&self, addr: u32) -> (r: bool)
        ensures
            r == self@.contains(addr),
    {
        let n = self.addrs.len();
        for i in 0..n
            invariant
                n == self.addrs@.len(),
                forall|j: int| 0 <= j < i ==> self.addrs@[j] != addr,
        {
            if self.addrs[i] == addr {
                assert(self.addrs@.to_set().contains(addr));
                return true;
            }
        }
        assert(!self.addrs@.contains(addr));
        false
    }

    /// Blocks `addr`, as an insert into the kernel map does: an address
    /// already blocked stays blocked, and a new address is refused when the
    /// list is at capacity.
    pub fn insert(&mut self, addr: u32) -> (r: Result<(), BlockListFull>)
        ensures
            r is Err <==> !old(self)@.contains(addr) && old(self)@.len() >= MAX_BLOCKED_IPS,
            r is Ok ==> final(self)@ == old(self)@.insert(addr),
            r is Err ==> final(self)@ == old(self)@,
            old(self)@.finite(),
            final(self)@.finite(),
            final(self)@.len() <= MAX_BLOCKED_IPS,
    {
        proof {
            use_type_invariant(&*self);
            self.addrs@.unique_seq_to_set();
        }
        if self.contains(addr) {
            assert(self@.insert(addr) =~= self@);
            proof {
                self.addrs@.unique_seq_to_set();
            }
            return Ok(());
        }
        if self.addrs.len() >= MAX_BLOCKED_IPS {
            return Err(BlockListFull);
        }
        let ghost before = self.addrs@;
        let mut addrs: Vec<u32> = Vec::new();
        std::mem::swap(&mut addrs, &mut self.addrs);
        addrs.push(addr);
        proof {
            assert forall|i: int, j: int|
                0 <= i < j < addrs@.len() implies addrs@[i] != addrs@[j] by {
                if j == before.len() {
                    assert(before.contains(before[i]));
                }
            }
        }
        self.addrs = addrs;
        proof {
            before.lemma_push_to_set_commute(addr);
            assert(self.addrs@ == before.push(addr));
            self.addrs@.unique_seq_to_set();
        }
        Ok(())
    }
}

impl View for BlockList {
    type V = Set<u32>;

    open spec fn view(&self) -> Set<u32> {
        self.addresses()
    }
}

/// Why loading stored address texts into a block list stopped.
#[derive(Debug, Clone, Copy, PartialEq, Eq)]
pub enum LoadError {
    /// The text at this row is not an address the standard parser reads.
    Unparsable { row: usize },
    /// The address at this row is new and the list is already full.
    Full { row: usize },
}

/// What loading the texts `rows`, in order, gives: the first row that does
/// not parse, or the first new address that finds the list full, stops it.
pub open spec fn load_outcome(rows: Seq<Seq<char>>) -> Result<Set<u32>, LoadError>
    decreases rows.len(),
{
    if rows.len() == 0 {
        Ok(Set::<u32>::empty())
    } else {
        match load_outcome(rows.drop_last()) {
            Err(e) => Err(e),
            Ok(set) => match std_ipv4_addr(rows.last()) {
                None => Err(LoadError::Unparsable { row: (rows.len() - 1) as usize }),
                Some(a) => if !set.contains(a) && set.len() >= MAX_BLOCKED_IPS {
                    Err(LoadError::Full { row: (rows.len() - 1) as usize })
                } else {
                    Ok(set.insert(a))
                },
            },
        }
    }
}

/// Once loading a prefix of the rows has stopped, loading all of them
/// stops the same way.
proof fn lemma_load_error_persists(rows: Seq<Seq<char>>, k: int)
    requires
        0 <= k <= rows.len(),
        load_outcome(rows.take(k)) is Err,
    ensures
        load_outcome(rows) == load_outcome(rows.take(k)),
    decreases rows.len() - k,
{
    if k < rows.len() {
        assert(rows.take(k + 1).drop_last() =~= rows.take(k));
        lemma_load_error_persists(rows, k + 1);
    } else {
        assert(rows.take(k) =~= rows);
    }
}

/// Every address read from the rows of a successful load is in the
/// loaded block list, and nothing else is.
pub proof fn lemma_load_blocks_every_row(rows: Seq<Seq<char>>)
    requires
        load_outcome(rows) is Ok,
    ensures
        forall|i: int|
            0 <= i < rows.len() ==> #[trigger] std_ipv4_addr(rows[i]) is Some
                && load_outcome(rows)->Ok_0.contains(std_ipv4_addr(rows[i])->Some_0),
        forall|a: u32|
            #[trigger] load_outcome(rows)->Ok_0.contains(a) ==> exists|i: int|
                0 <= i < rows.len() && std_ipv4_addr(rows[i]) == Some(a),
    decreases rows.len(),
{
    if rows.len() > 0 {
        let pre = rows.drop_last();
        lemma_load_blocks_every_row(pre);
        let set = load_outcome(rows)->Ok_0;
        assert forall|i: int| 0 <= i < rows.len() implies #[trigger] std_ipv4_addr(rows[i]) is Some
            && set.contains(std_ipv4_addr(rows[i])->Some_0) by {
            if i < rows.len() - 1 {
                assert(rows[i] == pre[i]);
            }
        }
        assert forall|a: u32| #[trigger] set.contains(a) implies exists|i: int|
            0 <= i < rows.len() && std_ipv4_addr(rows[i]) == Some(a) by {
            if load_outcome(pre)->Ok_0.contains(a) {
                let j = choose|j: int| 0 <= j < pre.len() && std_ipv4_addr(pre[j]) == Some(a);
                assert(rows[j] == pre[j]);
            } else {
                assert(std_ipv4_addr(rows[rows.len() - 1]) == Some(a));
            }
        }
    }
}

/// The views of a vector of strings.
pub open spec fn texts_view(v: Seq<String>) -> Seq<Seq<char>> {
    v.map_values(|s: String| s@)
}

/// Parses each stored address text and blocks it, in order.
pub fn load_blocklist(rows: &Vec<String>) -> (r: Result<BlockList, LoadError>)
    ensures
        match r {
            Ok(bl) => load_outcome(texts_view(rows@)) == Ok::<Set<u32>, LoadError>(bl@),
            Err(e) => load_outcome(texts_view(rows@)) == Err::<Set<u32>, LoadError>(e),
        },
{
    let mut bl = BlockList::new();
    let n = rows.len();
    for i in 0..n
        invariant
            n == rows@.len(),
            load_outcome(texts_view(rows@).take(i as int)) == Ok::<Set<u32>, LoadError>(bl@),
            bl@.finite(),
    {
        let ghost pre = texts_view(rows@).take(i as int);
        assert(texts_view(rows@).take(i + 1).drop_last() =~= pre);
        assert(texts_view(rows@).take(i + 1).last() == rows@[i as int]@);
        match parse_ipv4(rows[i].as_str()) {
            None => {
                proof {
                    lemma_load_error_persists(texts_view(rows@), i + 1);
                }
                return Err(LoadError::Unparsable { row: i });
            },
            Some(a) => {
                match bl.insert(a) {
                    Ok(()) => {},
                    Err(_) => {
                        proof {
                            lemma_load_error_persists(texts_view(rows@), i + 1);
                        }
                        return Err(LoadError::Full { row: i });
                    },
                }
            },
        }
    }
    assert(texts_view(rows@).take(n as int) =~= texts_view(rows@));
    Ok(bl)
}

} // verus!
