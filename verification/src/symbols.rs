//! The kernel's symbol table: which function an instruction pointer lies in.

use vstd::prelude::*;

verus! {

/// One kernel symbol: the address at which a function begins, and its name.
pub struct KernelSymbol {
    pub address: u64,
    pub name: String,
}

/// The symbol table, by strictly rising address.
pub struct KernelSymbols {
    entries: Vec<KernelSymbol>,
}

/// Whether the addresses rise strictly along the list.
pub open spec fn strictly_rising(entries: Seq<KernelSymbol>) -> bool {
    forall|i: int, j: int| 0 <= i < j < entries.len() ==> entries[i].address < entries[j].address
}

/// The name of the last symbol that begins at or before `ip`.
pub open spec fn nearest_symbol(entries: Seq<KernelSymbol>, ip: u64) -> Option<Seq<char>>
    decreases entries.len(),
{
    if entries.len() == 0 {
        None
    } else if entries.last().address <= ip {
        Some(entries.last().name@)
    } else {
        nearest_symbol(entries.drop_last(), ip)
    }
}

/// In a rising table the entry at or before `ip` whose successor lies
/// beyond `ip` is the nearest one.
pub proof fn lemma_nearest_at(entries: Seq<KernelSymbol>, ip: u64, i: int)
    requires
        strictly_rising(entries),
        0 <= i < entries.len(),
        entries[i].address <= ip,
        i + 1 < entries.len() ==> entries[i + 1].address > ip,
    ensures
        nearest_symbol(entries, ip) == Some(entries[i].name@),
    decreases entries.len(),
{
    if i + 1 < entries.len() {
        let rest = entries.drop_last();
        assert(entries.last().address >= entries[i + 1].address);
        lemma_nearest_at(rest, ip, i);
    }
}

/// Where every symbol begins beyond `ip`, none is nearest.
pub proof fn lemma_nearest_none(entries: Seq<KernelSymbol>, ip: u64)
    requires
        forall|j: int| 0 <= j < entries.len() ==> entries[j].address > ip,
    ensures
        nearest_symbol(entries, ip).is_none(),
    decreases entries.len(),
{
    if entries.len() > 0 {
        lemma_nearest_none(entries.drop_last(), ip);
    }
}

impl View for KernelSymbols {
    type V = Seq<KernelSymbol>;

    closed spec fn view(&self) -> Seq<KernelSymbol> {
        self.entries@
    }
}

impl KernelSymbols {
    #[verifier::type_invariant]
    spec fn rising(self) -> bool {
        strictly_rising(self.entries@)
    }

    /// The table of `entries`, where their addresses rise strictly; else
    /// nothing.
    pub fn from_sorted(entries: Vec<KernelSymbol>) -> (r: Option<KernelSymbols>)
        ensures
            r.is_some() <==> strictly_rising(entries@),
            r matches Some(table) ==> table@ == entries@,
    {
        let mut i: usize = 1;
        while i < entries.len()
            invariant
                1 <= i,
                forall|a: int, b: int|
                    0 <= a < b < i && b < entries.len() ==> entries@[a].address
                        < entries@[b].address,
            decreases entries.len() - i,
        {
            if entries[i - 1].address >= entries[i].address {
                return None;
            }
            proof {
                assert forall|a: int, b: int| 0 <= a < b < i + 1 && b < entries.len() implies entries@[a].address
                    < entries@[b].address by {
                    if b == i && a < i - 1 {
                        assert(entries@[a].address < entries@[i - 1].address);
                    }
                }
            }
            i = i + 1;
        }
        Some(KernelSymbols { entries })
    }

    /// The number of symbols.
    pub fn len(&self) -> (r: usize)
        ensures
            r == self@.len(),
    {
        self.entries.len()
    }

    /// The name of the function that `ip` lies in: the last symbol that
    /// begins at or before it.
    pub fn resolve(&self, ip: u64) -> (r: Option<&String>)
        ensures
            strictly_rising(self@),
            r.is_some() == nearest_symbol(self@, ip).is_some(),
            r matches Some(name) ==> nearest_symbol(self@, ip) == Some(name@),
    {
        proof {
            use_type_invariant(self);
        }
        let n = self.entries.len();
        if n == 0 || self.entries[0].address > ip {
            proof {
                assert forall|j: int| 0 <= j < self.entries@.len() implies self.entries@[j].address
                    > ip by {
                    if j > 0 {
                        assert(self.entries@[0].address < self.entries@[j].address);
                    }
                }
                lemma_nearest_none(self.entries@, ip);
            }
            return None;
        }
        let mut low: usize = 0;
        let mut high: usize = n;
        while high - low > 1
            invariant
                0 <= low < high <= n,
                n == self.entries@.len(),
                strictly_rising(self.entries@),
                self.entries@[low as int].address <= ip,
                high < n ==> self.entries@[high as int].address > ip,
            decreases high - low,
        {
            let mid = low + (high - low) / 2;
            if self.entries[mid].address <= ip {
                low = mid;
            } else {
                high = mid;
            }
        }
        proof {
            lemma_nearest_at(self.entries@, ip, low as int);
        }
        Some(&self.entries[low].name)
    }
}

} // verus!
