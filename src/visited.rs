use crate::error::Error;
use crate::table::Table;
use crate::value::Value;
use vstd::prelude::*;
use vstd::utf8::encode_utf8;

verus! {

/// Multiplier of the hash.
pub const HASH_SEED: u64 = 0x517cc1b727220a95;

/// One round of the hash: rotate the state left by five bits, mix in `w`, multiply by
/// [`HASH_SEED`] modulo 2^64.
pub open spec fn hash_word(h: u64, w: u64) -> u64 {
    vstd::wrapping::u64_specs::wrapping_mul(((h << 5u64) | (h >> 59u64)) ^ w, HASH_SEED)
}

/// The hash state after mixing in each byte of `bs` in order.
pub open spec fn hash_bytes(h: u64, bs: Seq<u8>) -> u64
    decreases bs.len(),
{
    if bs.len() == 0 {
        h
    } else {
        hash_word(hash_bytes(h, bs.drop_last()), bs.last() as u64)
    }
}

/// The hash state after mixing in the UTF-8 bytes of `s` and a terminating `0xff`.
pub open spec fn hash_text(h: u64, s: Seq<char>) -> u64 {
    hash_word(hash_bytes(h, encode_utf8(s)), 0xff)
}

/// The hash state after mixing in an optional text: a tag, then the text if present.
pub open spec fn hash_opt_text(h: u64, s: Option<String>) -> u64 {
    match s {
        None => hash_word(h, 0),
        Some(t) => hash_text(hash_word(h, 1), t@),
    }
}

/// The hash state after mixing in a value: a tag per kind, then its contents.
pub open spec fn hash_value(h: u64, v: Value) -> u64 {
    match v {
        Value::Null => hash_word(h, 0),
        Value::Text(s) => hash_text(hash_word(h, 1), s@),
        Value::Int(n) => hash_word(hash_word(h, 2), n as u64),
        Value::UInt(n) => hash_word(hash_word(h, 3), n),
        Value::Bool(b) => hash_word(hash_word(h, 4), if b { 1 } else { 0 }),
        Value::Decimal(d) => hash_word(
            hash_word(
                hash_word(hash_word(h, 5), d.spec_mantissa() as u64),
                (d.spec_mantissa() >> 64u128) as u64,
            ),
            d.spec_scale() as u64,
        ),
    }
}

/// The hash state after mixing in an optional value: a tag, then the value if present.
pub open spec fn hash_opt_value(h: u64, v: Option<Value>) -> u64 {
    match v {
        None => hash_word(h, 0),
        Some(x) => hash_value(hash_word(h, 1), x),
    }
}

/// The identity hash of a node: its primary key name, table name, alias and id value, in
/// this order, mixed into a zero state.
pub open spec fn node_hash(t: Table) -> u64 {
    hash_opt_value(
        hash_opt_text(hash_text(hash_text(0, t.primary_key_name@), t.table_name@), t.table_alias),
        t.id_field.value,
    )
}

fn mix_word(h: u64, w: u64) -> (r: u64)
    ensures
        r == hash_word(h, w),
{
    (((h << 5u64) | (h >> 59u64)) ^ w).wrapping_mul(HASH_SEED)
}

fn mix_text(h: u64, s: &String) -> (r: u64)
    ensures
        r == hash_text(h, s@),
{
    let bytes = s.as_str().as_bytes();
    let mut acc = h;
    let mut i: usize = 0;
    while i < bytes.len()
        invariant
            bytes@ == encode_utf8(s@),
            i <= bytes@.len(),
            acc == hash_bytes(h, bytes@.subrange(0, i as int)),
        decreases bytes@.len() - i,
    {
        assert(bytes@.subrange(0, i + 1).drop_last() =~= bytes@.subrange(0, i as int));
        acc = mix_word(acc, bytes[i] as u64);
        i = i + 1;
    }
    assert(bytes@.subrange(0, i as int) =~= bytes@);
    mix_word(acc, 0xff)
}

fn mix_value(h: u64, v: &Value) -> (r: u64)
    ensures
        r == hash_value(h, *v),
{
    match v {
        Value::Null => mix_word(h, 0),
        Value::Text(s) => mix_text(mix_word(h, 1), s),
        Value::Int(n) => mix_word(mix_word(h, 2), *n as u64),
        Value::UInt(n) => mix_word(mix_word(h, 3), *n),
        Value::Bool(b) => mix_word(mix_word(h, 4), if *b { 1 } else { 0 }),
        Value::Decimal(d) => {
            let m = d.mantissa();
            mix_word(
                mix_word(mix_word(mix_word(h, 5), m as u64), (m >> 64u128) as u64),
                d.scale() as u64,
            )
        },
    }
}

impl Table {
    /// The identity hash of this node, see [`node_hash`].
    pub fn instance_hash(&self) -> (r: u64)
        ensures
            r == node_hash(*self),
    {
        let mut h = mix_text(mix_text(0, &self.primary_key_name), &self.table_name);
        h = match &self.table_alias {
            None => mix_word(h, 0),
            Some(a) => mix_text(mix_word(h, 1), a),
        };
        match &self.id_field.value {
            None => mix_word(h, 0),
            Some(x) => mix_value(mix_word(h, 1), x),
        }
    }
}

/// The entries of a tracker are sorted by strictly increasing hash.
pub open spec fn sorted_by_hash(s: Seq<(u64, String)>) -> bool {
    forall|i: int, j: int| 0 <= i < j < s.len() ==> (#[trigger] s[i]).0 < (#[trigger] s[j]).0
}

/// The map from hash to table name that sorted entries hold.
pub open spec fn entries_map(s: Seq<(u64, String)>) -> Map<u64, String> {
    Map::new(
        |h: u64| exists|i: int| 0 <= i < s.len() && (#[trigger] s[i]).0 == h,
        |h: u64| s[choose|i: int| 0 <= i < s.len() && (#[trigger] s[i]).0 == h].1,
    )
}

/// What marking a node with hash `h` and table name `name` yields on a tracker holding `m`:
/// `Ok(false)` and `h` recorded when it is new, `Ok(true)` when `h` is recorded with the same
/// table name, a hash collision when it is recorded with another.
pub open spec fn mark_outcome(m: Map<u64, String>, h: u64, name: String) -> (
    Result<bool, Error>,
    Map<u64, String>,
) {
    if !m.contains_key(h) {
        (Ok(false), m.insert(h, name))
    } else if m[h]@ == name@ {
        (Ok(true), m)
    } else {
        (Err(Error::HashCollision(h, m[h], name)), m)
    }
}

/// The nodes already written by one statement build, keyed by their identity hash.
pub struct VisitedNodes {
    entries: Vec<(u64, String)>,
}

impl VisitedNodes {
    /// Entries are sorted by strictly increasing hash.
    pub closed spec fn wf(&self) -> bool {
        sorted_by_hash(self.entries@)
    }

    /// The recorded table name of each recorded hash.
    pub closed spec fn view(&self) -> Map<u64, String> {
        entries_map(self.entries@)
    }

    /// A tracker that has seen nothing.
    pub fn new() -> (r: VisitedNodes)
        ensures
            r.wf(),
            r.view() == Map::<u64, String>::empty(),
    {
        let r = VisitedNodes { entries: Vec::new() };
        assert(r.view() =~= Map::<u64, String>::empty());
        r
    }

    /// Records the node identity `hash` of table `table_name`, or reports that it was already
    /// recorded, or that it collides with another table's node; see [`mark_outcome`].
    pub fn mark_and_check(&mut self, hash: u64, table_name: &String) -> (r: Result<bool, Error>)
        requires
            old(self).wf(),
        ensures
            final(self).wf(),
            (r, final(self).view()) == mark_outcome(old(self).view(), hash, *table_name),
    {
        let ghost s = self.entries@;
        let mut lo: usize = 0;
        let mut hi: usize = self.entries.len();
        while lo < hi
            invariant
                s == self.entries@,
                sorted_by_hash(s),
                lo <= hi <= s.len(),
                forall|i: int| 0 <= i < lo ==> (#[trigger] s[i]).0 < hash,
                forall|i: int| hi <= i < s.len() ==> (#[trigger] s[i]).0 > hash,
            decreases hi - lo,
        {
            let mid = lo + (hi - lo) / 2;
            let k = self.entries[mid].0;
            if k < hash {
                lo = mid + 1;
            } else if k > hash {
                hi = mid;
            } else {
                proof {
                    lemma_lookup(s, mid as int);
                }
                if self.entries[mid].1 == *table_name {
                    return Ok(true);
                } else {
                    let existing = self.entries[mid].1.clone();
                    return Err(Error::HashCollision(hash, existing, table_name.clone()));
                }
            }
        }
        proof {
            assert(!entries_map(s).contains_key(hash));
        }
        self.entries.insert(lo, (hash, table_name.clone()));
        proof {
            let t = self.entries@;
            assert(t == s.insert(lo as int, (hash, *table_name)));
            assert(sorted_by_hash(t)) by {
                assert forall|i: int, j: int| 0 <= i < j < t.len() implies (#[trigger] t[i]).0 < (
                #[trigger] t[j]).0 by {
                    if j < lo {
                    } else if j == lo {
                    } else if i < lo {
                        assert(t[j] == s[j - 1]);
                    } else if i == lo {
                        assert(t[j] == s[j - 1]);
                    } else {
                        assert(t[i] == s[i - 1] && t[j] == s[j - 1]);
                    }
                }
            }
            assert(entries_map(t) =~= entries_map(s).insert(hash, *table_name)) by {
                assert forall|h: u64| #[trigger]
                    entries_map(t).contains_key(h) <==> entries_map(s).insert(
                        hash,
                        *table_name,
                    ).contains_key(h) by {
                    if entries_map(t).contains_key(h) {
                        let i = choose|i: int| 0 <= i < t.len() && (#[trigger] t[i]).0 == h;
                        if i < lo {
                            assert(s[i].0 == h);
                        } else if i > lo {
                            assert(s[i - 1].0 == h);
                        }
                    }
                    if entries_map(s).contains_key(h) {
                        let i = choose|i: int| 0 <= i < s.len() && (#[trigger] s[i]).0 == h;
                        if i < lo {
                            assert(t[i].0 == h);
                        } else {
                            assert(t[i + 1].0 == h);
                        }
                    }
                    if h == hash {
                        assert(t[lo as int].0 == h);
                    }
                }
                assert forall|h: u64| #[trigger]
                    entries_map(t).contains_key(h) implies entries_map(t)[h]
                    == entries_map(s).insert(hash, *table_name)[h] by {
                    let i = choose|i: int| 0 <= i < t.len() && (#[trigger] t[i]).0 == h;
                    lemma_lookup(t, i);
                    if i < lo {
                        lemma_lookup(s, i);
                    } else if i > lo {
                        lemma_lookup(s, i - 1);
                    }
                }
            }
        }
        Ok(false)
    }
}

/// In sorted entries, the hash of the `i`-th entry maps to its table name.
proof fn lemma_lookup(s: Seq<(u64, String)>, i: int)
    requires
        sorted_by_hash(s),
        0 <= i < s.len(),
    ensures
        entries_map(s).contains_key(s[i].0),
        entries_map(s)[s[i].0] == s[i].1,
{
    let h = s[i].0;
    assert(exists|j: int| 0 <= j < s.len() && (#[trigger] s[j]).0 == h) by {
        assert(s[i].0 == h);
    }
    let j = choose|j: int| 0 <= j < s.len() && (#[trigger] s[j]).0 == h;
    if j < i {
    } else if j > i {
    }
}

} // verus!
