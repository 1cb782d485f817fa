//! The table of documented configuration prefixes, and the prefixes that more than
//! one contract claims.
use vstd::prelude::*;

use crate::names::{ascending, ascending_unique, NameSet};
use crate::text::str_eq;

verus! {

/// The stable identity of a contract.
#[derive(Clone, Copy, Debug, PartialEq, Eq, Structural)]
pub struct ContractId(pub u64);

/// A contract that documents a configuration prefix.
#[derive(Clone, Debug, PartialEq, Eq)]
pub struct ConfigMetadataRow {
    pub contract: ContractId,
    pub prefix: String,
}

/// A documented group of configuration properties.
#[derive(Clone, Debug, PartialEq, Eq)]
pub struct ConfigGroup {
    pub prefix: String,
    pub type_path: String,
    pub description: Option<String>,
    pub contract: ContractId,
}

/// A prefix that two contracts or more document.
#[derive(Clone, Debug, PartialEq, Eq)]
pub struct DuplicatePrefix {
    pub prefix: String,
    /// The contracts that claim the prefix, ascending.
    pub contracts: Vec<ContractId>,
}

/// Every documented prefix once, and the prefixes that are claimed more than once.
#[derive(Clone, Debug, Default)]
pub struct MetadataRollup {
    /// One row for each prefix, ascending by prefix, with the lowest contract that
    /// claims it.
    pub rows: Vec<ConfigMetadataRow>,
    /// The prefixes that two contracts or more claim, ascending.
    pub duplicates: Vec<DuplicatePrefix>,
}

/// One of `rows` has `prefix` documented by `contract`.
pub open spec fn claims(
    rows: Seq<ConfigMetadataRow>,
    prefix: Seq<char>,
    contract: ContractId,
) -> bool {
    exists|i: int|
        0 <= i < rows.len() && (#[trigger] rows[i]).prefix@ == prefix && rows[i].contract
            == contract
}

/// Some contract documents `prefix`.
pub open spec fn is_documented(rows: Seq<ConfigMetadataRow>, prefix: Seq<char>) -> bool {
    exists|c: ContractId| claims(rows, prefix, c)
}

/// Two different contracts document `prefix`.
pub open spec fn is_contested(rows: Seq<ConfigMetadataRow>, prefix: Seq<char>) -> bool {
    exists|c: ContractId, d: ContractId|
        c != d && #[trigger] claims(rows, prefix, c) && #[trigger] claims(rows, prefix, d)
}

/// `contracts` are the contracts that claim `prefix`, each once, ascending.
pub open spec fn are_claimants(
    rows: Seq<ConfigMetadataRow>,
    prefix: Seq<char>,
    contracts: Seq<ContractId>,
) -> bool {
    &&& forall|i: int, j: int|
        0 <= i < j < contracts.len() ==> (#[trigger] contracts[i]).0 < (#[trigger] contracts[j]).0
    &&& forall|c: ContractId| contracts.contains(c) <==> #[trigger] claims(rows, prefix, c)
}

/// The prefixes of table rows.
pub open spec fn row_prefixes(rows: Seq<ConfigMetadataRow>) -> Seq<Seq<char>> {
    Seq::new(rows.len(), |i: int| rows[i].prefix@)
}

/// The prefixes of collisions.
pub open spec fn duplicate_prefixes(duplicates: Seq<DuplicatePrefix>) -> Seq<Seq<char>> {
    Seq::new(duplicates.len(), |i: int| duplicates[i].prefix@)
}

/// What the rollup of `rows` holds.
pub open spec fn is_rollup(
    rows: Seq<ConfigMetadataRow>,
    table: Seq<ConfigMetadataRow>,
    duplicates: Seq<DuplicatePrefix>,
) -> bool {
    &&& ascending(row_prefixes(table))
    &&& forall|p: Seq<char>|
        row_prefixes(table).contains(p) <==> #[trigger] is_documented(rows, p)
    &&& forall|i: int|
        0 <= i < table.len() ==> claims(rows, (#[trigger] table[i]).prefix@, table[i].contract)
    &&& forall|i: int, c: ContractId|
        0 <= i < table.len() && #[trigger] claims(rows, (#[trigger] table[i]).prefix@, c)
            ==> table[i].contract.0 <= c.0
    &&& ascending(duplicate_prefixes(duplicates))
    &&& forall|p: Seq<char>|
        duplicate_prefixes(duplicates).contains(p) <==> #[trigger] is_contested(rows, p)
    &&& forall|i: int|
        0 <= i < duplicates.len() ==> are_claimants(
            rows,
            (#[trigger] duplicates[i]).prefix@,
            duplicates[i].contracts@,
        )
}

/// Two ascending lists of the same contracts are the same list.
proof fn claimants_unique(a: Seq<ContractId>, b: Seq<ContractId>)
    requires
        forall|i: int, j: int| 0 <= i < j < a.len() ==> (#[trigger] a[i]).0 < (#[trigger] a[j]).0,
        forall|i: int, j: int| 0 <= i < j < b.len() ==> (#[trigger] b[i]).0 < (#[trigger] b[j]).0,
        forall|c: ContractId| a.contains(c) <==> b.contains(c),
    ensures
        a == b,
    decreases a.len(),
{
    if a.len() == 0 {
        if b.len() > 0 {
            assert(b.contains(b[0]));
        }
        assert(a =~= b);
    } else if b.len() == 0 {
        assert(a.contains(a[0]));
    } else {
        assert(a.contains(a[0]) && b.contains(b[0]));
        let i = choose|i: int| 0 <= i < b.len() && b[i] == a[0];
        let j = choose|j: int| 0 <= j < a.len() && a[j] == b[0];
        assert(a[0] == b[0]);
        let ta = a.drop_first();
        let tb = b.drop_first();
        assert forall|c: ContractId| ta.contains(c) <==> tb.contains(c) by {
            if ta.contains(c) {
                let k = choose|k: int| 0 <= k < ta.len() && ta[k] == c;
                assert(a[k + 1] == c && a.contains(c));
                let m = choose|m: int| 0 <= m < b.len() && b[m] == c;
                assert(tb[m - 1] == c);
            }
            if tb.contains(c) {
                let k = choose|k: int| 0 <= k < tb.len() && tb[k] == c;
                assert(b[k + 1] == c && b.contains(c));
                let m = choose|m: int| 0 <= m < a.len() && a[m] == c;
                assert(ta[m - 1] == c);
            }
        }
        claimants_unique(ta, tb);
        assert(a =~= seq![a[0]] + ta);
        assert(b =~= seq![b[0]] + tb);
    }
}

/// The table documents each prefix once, by the least contract that claims it, and lists a prefix
/// as contested where two contracts claim it, with all that do, in their order.
pub proof fn least_claimant_documents_the_prefix(
    rows: Seq<ConfigMetadataRow>,
    table: Seq<ConfigMetadataRow>,
    duplicates: Seq<DuplicatePrefix>,
    k: int,
    l: int,
)
    requires
        is_rollup(rows, table, duplicates),
        0 <= k < rows.len(),
        0 <= l < rows.len(),
    ensures
        exists|i: int|
            0 <= i < table.len() && (#[trigger] table[i]).prefix@ == rows[k].prefix@ && table[i].contract.0
                <= rows[k].contract.0,
        rows[k].prefix@ == rows[l].prefix@ && rows[k].contract != rows[l].contract ==> exists|
            d: int,
        |
            {
                &&& 0 <= d < duplicates.len()
                &&& (#[trigger] duplicates[d]).prefix@ == rows[k].prefix@
                &&& duplicates[d].contracts@.contains(rows[k].contract)
                &&& duplicates[d].contracts@.contains(rows[l].contract)
            },
        forall|i: int|
            0 <= i < table.len() ==> exists|r: int|
                0 <= r < rows.len() && (#[trigger] rows[r]).prefix@ == (#[trigger] table[i]).prefix@
                    && rows[r].contract == table[i].contract,
{
    let p = rows[k].prefix@;
    assert(claims(rows, p, rows[k].contract));
    assert(is_documented(rows, p));
    assert(row_prefixes(table).contains(p));
    let i = choose|i: int| 0 <= i < table.len() && row_prefixes(table)[i] == p;
    assert(table[i].prefix@ == p);
    assert(claims(rows, table[i].prefix@, rows[k].contract));
    if rows[k].prefix@ == rows[l].prefix@ && rows[k].contract != rows[l].contract {
        assert(claims(rows, p, rows[l].contract));
        assert(is_contested(rows, p));
        assert(duplicate_prefixes(duplicates).contains(p));
        let d = choose|d: int|
            0 <= d < duplicates.len() && duplicate_prefixes(duplicates)[d] == p;
        assert(duplicates[d].prefix@ == p);
        assert(are_claimants(rows, duplicates[d].prefix@, duplicates[d].contracts@));
        assert(duplicates[d].contracts@.contains(rows[k].contract));
        assert(duplicates[d].contracts@.contains(rows[l].contract));
    }
    assert forall|i: int| 0 <= i < table.len() implies exists|r: int|
        0 <= r < rows.len() && (#[trigger] rows[r]).prefix@ == (#[trigger] table[i]).prefix@
            && rows[r].contract == table[i].contract by {
        assert(claims(rows, table[i].prefix@, table[i].contract));
    }
}

/// The rollup depends only on which contract claims which prefix: not on the order
/// of the rows, and not on how often a row occurs.
pub proof fn rollup_is_unique(
    rows: Seq<ConfigMetadataRow>,
    others: Seq<ConfigMetadataRow>,
    table: Seq<ConfigMetadataRow>,
    duplicates: Seq<DuplicatePrefix>,
    other_table: Seq<ConfigMetadataRow>,
    other_duplicates: Seq<DuplicatePrefix>,
)
    requires
        is_rollup(rows, table, duplicates),
        is_rollup(others, other_table, other_duplicates),
        forall|p: Seq<char>, c: ContractId| claims(rows, p, c) <==> claims(others, p, c),
    ensures
        row_prefixes(table) == row_prefixes(other_table),
        forall|i: int|
            0 <= i < table.len() ==> (#[trigger] table[i]).contract == other_table[i].contract,
        duplicate_prefixes(duplicates) == duplicate_prefixes(other_duplicates),
        forall|i: int|
            0 <= i < duplicates.len() ==> (#[trigger] duplicates[i]).contracts@
                == other_duplicates[i].contracts@,
{
    assert forall|p: Seq<char>| is_documented(rows, p) <==> is_documented(others, p) by {
        if is_documented(rows, p) {
            let c = choose|c: ContractId| claims(rows, p, c);
            assert(claims(others, p, c));
        }
        if is_documented(others, p) {
            let c = choose|c: ContractId| claims(others, p, c);
            assert(claims(rows, p, c));
        }
    }
    assert forall|p: Seq<char>| is_contested(rows, p) <==> is_contested(others, p) by {
        if is_contested(rows, p) {
            let (c, d) = choose|c: ContractId, d: ContractId|
                c != d && #[trigger] claims(rows, p, c) && #[trigger] claims(rows, p, d);
            assert(claims(others, p, c) && claims(others, p, d));
        }
        if is_contested(others, p) {
            let (c, d) = choose|c: ContractId, d: ContractId|
                c != d && #[trigger] claims(others, p, c) && #[trigger] claims(others, p, d);
            assert(claims(rows, p, c) && claims(rows, p, d));
        }
    }
    assert forall|p: Seq<char>|
        row_prefixes(table).contains(p) <==> row_prefixes(other_table).contains(p) by {
        assert(is_documented(rows, p) <==> is_documented(others, p));
    }
    ascending_unique(row_prefixes(table), row_prefixes(other_table));
    assert(row_prefixes(table).len() == table.len());
    assert(row_prefixes(other_table).len() == other_table.len());
    assert forall|i: int| 0 <= i < table.len() implies (#[trigger] table[i]).contract
        == other_table[i].contract by {
        assert(row_prefixes(table)[i] == row_prefixes(other_table)[i]);
        assert(claims(others, other_table[i].prefix@, table[i].contract));
        assert(claims(rows, table[i].prefix@, other_table[i].contract));
    }
    assert forall|p: Seq<char>|
        duplicate_prefixes(duplicates).contains(p) <==> duplicate_prefixes(
            other_duplicates,
        ).contains(p) by {
        assert(is_contested(rows, p) <==> is_contested(others, p));
    }
    ascending_unique(duplicate_prefixes(duplicates), duplicate_prefixes(other_duplicates));
    assert(duplicate_prefixes(duplicates).len() == duplicates.len());
    assert(duplicate_prefixes(other_duplicates).len() == other_duplicates.len());
    assert forall|i: int| 0 <= i < duplicates.len() implies (#[trigger] duplicates[i]).contracts@
        == other_duplicates[i].contracts@ by {
        assert(duplicate_prefixes(duplicates)[i] == duplicate_prefixes(other_duplicates)[i]);
        let a = duplicates[i].contracts@;
        let b = other_duplicates[i].contracts@;
        assert forall|c: ContractId| a.contains(c) <==> b.contains(c) by {
            assert(claims(rows, duplicates[i].prefix@, c) <==> claims(
                others,
                other_duplicates[i].prefix@,
                c,
            ));
        }
        claimants_unique(a, b);
    }
}

impl MetadataRollup {
    /// Whether no prefix is claimed more than once.
    pub fn is_clean(&self) -> (res: bool)
        ensures
            res == (self.duplicates@.len() == 0),
    {
        self.duplicates.len() == 0
    }

    /// The first row of the table that documents `prefix`.
    pub fn row(&self, prefix: &str) -> (res: Option<&ConfigMetadataRow>)
        ensures
            match res {
                Some(row) => exists|i: int|
                    0 <= i < self.rows@.len() && row == #[trigger] self.rows@[i] && row.prefix@
                        == prefix@ && forall|k: int|
                        0 <= k < i ==> (#[trigger] self.rows@[k]).prefix@ != prefix@,
                None => forall|i: int|
                    0 <= i < self.rows@.len() ==> (#[trigger] self.rows@[i]).prefix@ != prefix@,
            },
    {
        let mut i: usize = 0;
        while i < self.rows.len()
            invariant
                i <= self.rows.len(),
                forall|k: int| 0 <= k < i ==> (#[trigger] self.rows@[k]).prefix@ != prefix@,
            decreases self.rows.len() - i,
        {
            if str_eq(self.rows[i].prefix.as_str(), prefix) {
                return Some(&self.rows[i]);
            }
            i += 1;
        }
        None
    }
}

/// Puts `contract` into an ascending list, where it is not there yet.
fn insert_contract(contracts: &mut Vec<ContractId>, contract: ContractId)
    requires
        forall|i: int, j: int|
            0 <= i < j < old(contracts)@.len() ==> (#[trigger] old(contracts)@[i]).0 < (
            #[trigger] old(contracts)@[j]).0,
    ensures
        forall|i: int, j: int|
            0 <= i < j < final(contracts)@.len() ==> (#[trigger] final(contracts)@[i]).0 < (
            #[trigger] final(contracts)@[j]).0,
        forall|c: ContractId|
            final(contracts)@.contains(c) <==> old(contracts)@.contains(c) || c == contract,
{
    let ghost before = contracts@;
    let mut i: usize = 0;
    while i < contracts.len() && contracts[i].0 < contract.0
        invariant
            contracts@ == before,
            i <= contracts.len(),
            forall|k: int| 0 <= k < i ==> (#[trigger] before[k]).0 < contract.0,
        decreases contracts.len() - i,
    {
        i += 1;
    }
    if i < contracts.len() && contracts[i].0 == contract.0 {
        assert(before[i as int] == contract);
        assert(before.contains(contract));
        return;
    }
    contracts.insert(i, contract);
    assert(contracts@ == before.insert(i as int, contract));
    assert forall|c: ContractId| #[trigger] contracts@.contains(c) <==> before.contains(c) || c
        == contract by {
        if before.contains(c) {
            let k = choose|k: int| 0 <= k < before.len() && before[k] == c;
            if k < i {
                assert(contracts@[k] == c);
            } else {
                assert(contracts@[k + 1] == c);
            }
        }
        if c == contract {
            assert(contracts@[i as int] == c);
        }
        if contracts@.contains(c) {
            let k = choose|k: int| 0 <= k < contracts@.len() && contracts@[k] == c;
            if k < i {
                assert(before[k] == c);
            } else if k > i {
                assert(before[k - 1] == c);
            }
        }
    }
}

/// The contracts that claim `prefix`, ascending.
fn claimants(rows: &[ConfigMetadataRow], prefix: &str) -> (res: Vec<ContractId>)
    ensures
        are_claimants(rows@, prefix@, res@),
{
    let mut out: Vec<ContractId> = Vec::new();
    let mut i: usize = 0;
    while i < rows.len()
        invariant
            i <= rows@.len(),
            forall|i: int, j: int|
                0 <= i < j < out@.len() ==> (#[trigger] out@[i]).0 < (#[trigger] out@[j]).0,
            forall|c: ContractId|
                out@.contains(c) <==> #[trigger] claims(rows@.take(i as int), prefix@, c),
        decreases rows@.len() - i,
    {
        let ghost before = out@;
        let ghost row = rows@[i as int];
        if str_eq(rows[i].prefix.as_str(), prefix) {
            insert_contract(&mut out, rows[i].contract);
        }
        assert forall|c: ContractId|
            out@.contains(c) <==> #[trigger] claims(rows@.take(i + 1), prefix@, c) by {
            let shorter = rows@.take(i as int);
            let longer = rows@.take(i + 1);
            if claims(shorter, prefix@, c) {
                let k = choose|k: int|
                    0 <= k < shorter.len() && (#[trigger] shorter[k]).prefix@ == prefix@
                        && shorter[k].contract == c;
                assert(longer[k].contract == c);
            }
            if row.prefix@ == prefix@ && row.contract == c {
                assert(longer[i as int].contract == c);
            }
            if claims(longer, prefix@, c) {
                let k = choose|k: int|
                    0 <= k < longer.len() && (#[trigger] longer[k]).prefix@ == prefix@
                        && longer[k].contract == c;
                if k < i {
                    assert(shorter[k].contract == c);
                    assert(claims(shorter, prefix@, c));
                }
            }
        }
        i += 1;
    }
    assert(rows@.take(i as int) =~= rows@);
    out
}

/// The prefixes that are documented, ascending.
fn documented(rows: &[ConfigMetadataRow]) -> (res: NameSet)
    ensures
        ascending(res@),
        forall|p: Seq<char>| res@.contains(p) <==> #[trigger] is_documented(rows@, p),
{
    let mut prefixes = NameSet::new();
    let mut i: usize = 0;
    while i < rows.len()
        invariant
            i <= rows@.len(),
            ascending(prefixes@),
            forall|p: Seq<char>|
                prefixes@.contains(p) <==> exists|k: int|
                    0 <= k < i && (#[trigger] rows@[k]).prefix@ == p,
        decreases rows@.len() - i,
    {
        let ghost before = prefixes@;
        prefixes.insert(rows[i].prefix.as_str());
        assert forall|p: Seq<char>|
            prefixes@.contains(p) <==> exists|k: int|
                0 <= k < i + 1 && (#[trigger] rows@[k]).prefix@ == p by {
            if p == rows@[i as int].prefix@ {
                assert(rows@[i as int].prefix@ == p);
            }
            if before.contains(p) {
                let k = choose|k: int| 0 <= k < i && (#[trigger] rows@[k]).prefix@ == p;
                assert(rows@[k].prefix@ == p);
            }
        }
        i += 1;
    }
    assert forall|p: Seq<char>| prefixes@.contains(p) <==> #[trigger] is_documented(rows@, p) by {
        if prefixes@.contains(p) {
            let k = choose|k: int| 0 <= k < rows@.len() && (#[trigger] rows@[k]).prefix@ == p;
            assert(claims(rows@, p, rows@[k].contract));
        }
        if is_documented(rows@, p) {
            let c = choose|c: ContractId| claims(rows@, p, c);
            let k = choose|k: int|
                0 <= k < rows@.len() && (#[trigger] rows@[k]).prefix@ == p && rows@[k].contract
                    == c;
            assert(rows@[k].prefix@ == p);
        }
    }
    prefixes
}

/// Rolls up `rows`.
pub fn roll_up(rows: &[ConfigMetadataRow]) -> (res: MetadataRollup)
    ensures
        is_rollup(rows@, res.rows@, res.duplicates@),
{
    let prefixes = documented(rows);
    let mut table: Vec<ConfigMetadataRow> = Vec::new();
    let mut duplicates: Vec<DuplicatePrefix> = Vec::new();
    let mut i: usize = 0;
    while i < prefixes.len()
        invariant
            i <= prefixes@.len(),
            ascending(prefixes@),
            forall|p: Seq<char>| prefixes@.contains(p) <==> #[trigger] is_documented(rows@, p),
            row_prefixes(table@) == prefixes@.take(i as int),
            forall|k: int|
                0 <= k < table@.len() ==> claims(
                    rows@,
                    (#[trigger] table@[k]).prefix@,
                    table@[k].contract,
                ),
            forall|k: int, c: ContractId|
                0 <= k < table@.len() && #[trigger] claims(
                    rows@,
                    (#[trigger] table@[k]).prefix@,
                    c,
                ) ==> table@[k].contract.0 <= c.0,
            ascending(duplicate_prefixes(duplicates@)),
            forall|p: Seq<char>|
                #![trigger duplicate_prefixes(duplicates@).contains(p)]
                #![trigger is_contested(rows@, p)]
                duplicate_prefixes(duplicates@).contains(p) <==> prefixes@.take(
                    i as int,
                ).contains(p) && is_contested(rows@, p),
            forall|k: int|
                0 <= k < duplicates@.len() ==> are_claimants(
                    rows@,
                    (#[trigger] duplicates@[k]).prefix@,
                    duplicates@[k].contracts@,
                ),
        decreases prefixes@.len() - i,
    {
        let prefix = prefixes.get(i);
        let contracts = claimants(rows, prefix);
        let ghost seen = prefixes@.take(i as int);
        let ghost later = prefixes@.take(i + 1);
        let ghost old_table = table@;
        let ghost old_duplicates = duplicates@;
        proof {
            assert(prefixes@.contains(prefix@));
            assert(is_documented(rows@, prefix@));
            let c = choose|c: ContractId| claims(rows@, prefix@, c);
            assert(contracts@.contains(c));
            assert(later =~= seen.push(prefix@));
            assert(contracts@.contains(contracts@[0]));
            assert forall|c: ContractId| claims(rows@, prefix@, c) implies contracts@[0].0
                <= c.0 by {
                assert(contracts@.contains(c));
            }
        }
        table.push(ConfigMetadataRow { contract: contracts[0], prefix: prefix.to_string() });
        assert(row_prefixes(table@) =~= row_prefixes(old_table).push(prefix@));
        if contracts.len() > 1 {
            duplicates.push(DuplicatePrefix { prefix: prefix.to_string(), contracts });
            proof {
                assert(contracts@.contains(contracts@[0]) && contracts@.contains(contracts@[1]));
                assert(claims(rows@, prefix@, contracts@[0]) && claims(
                    rows@,
                    prefix@,
                    contracts@[1],
                ));
                assert(is_contested(rows@, prefix@));
                let was = duplicate_prefixes(old_duplicates);
                let now = duplicate_prefixes(duplicates@);
                assert(now =~= was.push(prefix@));
                assert forall|a: int, b: int| 0 <= a < b < now.len() implies crate::text::less(
                    #[trigger] now[a],
                    #[trigger] now[b],
                ) by {
                    if b == was.len() {
                        assert(was.contains(was[a]));
                        assert(seen.contains(was[a]));
                        let k = choose|k: int| 0 <= k < seen.len() && seen[k] == was[a];
                        assert(prefixes@[k] == was[a]);
                        assert(crate::text::less(prefixes@[k], prefixes@[i as int]));
                    } else {
                        assert(crate::text::less(was[a], was[b]));
                    }
                }
                assert forall|p: Seq<char>|
                    #![trigger now.contains(p)]
                    #![trigger is_contested(rows@, p)]
                    now.contains(p) <==> later.contains(p) && is_contested(rows@, p) by {
                    pushed_contains(was, prefix@, p);
                    pushed_contains(seen, prefix@, p);
                }
            }
        } else {
            proof {
                assert forall|p: Seq<char>|
                    #![trigger duplicate_prefixes(duplicates@).contains(p)]
                    #![trigger is_contested(rows@, p)]
                    duplicate_prefixes(duplicates@).contains(p) <==> later.contains(p)
                        && is_contested(rows@, p) by {
                    pushed_contains(seen, prefix@, p);
                    if p == prefix@ && is_contested(rows@, p) {
                        let (c, d) = choose|c: ContractId, d: ContractId|
                            c != d && #[trigger] claims(rows@, p, c) && #[trigger] claims(
                                rows@,
                                p,
                                d,
                            );
                        assert(contracts@.contains(c) && contracts@.contains(d));
                    }
                }
            }
        }
        i += 1;
    }
    proof {
        assert(prefixes@.take(i as int) =~= prefixes@);
        assert forall|p: Seq<char>|
            duplicate_prefixes(duplicates@).contains(p) <==> #[trigger] is_contested(rows@, p) by {
            if is_contested(rows@, p) {
                let (c, d) = choose|c: ContractId, d: ContractId|
                    c != d && #[trigger] claims(rows@, p, c) && #[trigger] claims(rows@, p, d);
                assert(is_documented(rows@, p));
            }
        }
    }
    MetadataRollup { rows: table, duplicates }
}

/// What a list with one more name at its end holds.
proof fn pushed_contains(names: Seq<Seq<char>>, name: Seq<char>, p: Seq<char>)
    ensures
        names.push(name).contains(p) <==> names.contains(p) || p == name,
{
    let more = names.push(name);
    if names.contains(p) {
        let k = choose|k: int| 0 <= k < names.len() && names[k] == p;
        assert(more[k] == p);
    }
    if p == name {
        assert(more[names.len() as int] == p);
    }
    if more.contains(p) {
        let k = choose|k: int| 0 <= k < more.len() && more[k] == p;
        if k < names.len() {
            assert(names[k] == p);
        }
    }
}

/// The rows that groups stand for.
pub open spec fn are_group_rows(
    groups: Seq<ConfigGroup>,
    rows: Seq<ConfigMetadataRow>,
) -> bool {
    &&& rows.len() == groups.len()
    &&& forall|i: int|
        0 <= i < rows.len() ==> (#[trigger] rows[i]).contract == groups[i].contract
            && rows[i].prefix@ == groups[i].prefix@
}

/// Rolls up the rows of `groups`.
pub fn roll_up_groups(groups: &[ConfigGroup]) -> (res: MetadataRollup)
    ensures
        exists|rows: Seq<ConfigMetadataRow>| #[trigger]
            are_group_rows(groups@, rows) && is_rollup(rows, res.rows@, res.duplicates@),
{
    let mut rows: Vec<ConfigMetadataRow> = Vec::new();
    let mut i: usize = 0;
    while i < groups.len()
        invariant
            i <= groups@.len(),
            rows@.len() == i,
            forall|k: int|
                0 <= k < i ==> (#[trigger] rows@[k]).contract == groups@[k].contract
                    && rows@[k].prefix@ == groups@[k].prefix@,
        decreases groups@.len() - i,
    {
        rows.push(
            ConfigMetadataRow { contract: groups[i].contract, prefix: groups[i].prefix.clone() },
        );
        i += 1;
    }
    assert(are_group_rows(groups@, rows@));
    roll_up(&rows)
}

} // verus!
