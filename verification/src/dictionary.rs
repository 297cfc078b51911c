//! String interning for tag columns.
//!
//! A dictionary maps strings to small integer symbols with reverse
//! lookup and deduplication. Symbols are assigned in insertion order,
//! are never reused or removed, and stay stable for the dictionary's
//! lifetime. The strings live in verified storage; a hashed index of an
//! outside crate provides the constant-time string-to-symbol step and is
//! kept in sync with the storage.

use vstd::prelude::*;

verus! {

/// Symbol identifier a dictionary assigns to an interned string.
pub type DID = i32;

/// Placeholder symbol for rows without a value.
pub const INVALID_DID: i32 = -1;

/// Hashed string-to-symbol index. The verified dictionary keeps it in
/// sync with its string storage and trusts only plain map semantics.
#[verifier::external_body]
pub struct DedupIndex {
    map: hashbrown::HashMap<String, usize, ahash::RandomState>,
}

/// What the hashed index holds: each interned string mapped to its
/// symbol position.
pub uninterp spec fn dedup_contents(d: DedupIndex) -> Map<Seq<char>, usize>;

/// Relies on hashbrown::HashMap::default: a fresh map holds nothing.
#[verifier::external_body]
fn dedup_index_new() -> (r: DedupIndex)
    ensures
        forall|s: Seq<char>| !dedup_contents(r).dom().contains(s),
{
    DedupIndex { map: hashbrown::HashMap::default() }
}

/// Relies on hashbrown::HashMap::insert: the map afterwards associates
/// this key with this value and leaves every other key unchanged.
#[verifier::external_body]
fn dedup_index_insert(d: &mut DedupIndex, key: &str, value: usize)
    ensures
        dedup_contents(*final(d)) == dedup_contents(*old(d)).insert(key@, value),
{
    d.map.insert(key.to_string(), value);
}

/// Relies on hashbrown::HashMap::get: returns the value the map
/// associates with the key, if any.
#[verifier::external_body]
fn dedup_index_get(d: &DedupIndex, key: &str) -> (r: Option<usize>)
    ensures
        r == (if dedup_contents(*d).dom().contains(key@) {
            Some(dedup_contents(*d)[key@])
        } else {
            None::<usize>
        }),
{
    d.map.get(key).copied()
}

/// No string occurs twice in the interned storage.
pub open spec fn dict_distinct(ss: Seq<Seq<char>>) -> bool {
    forall|i: int, j: int| 0 <= i < j < ss.len() ==> ss[i] != ss[j]
}

/// Whether the storage already holds the string.
pub open spec fn dict_contains(ss: Seq<Seq<char>>, s: Seq<char>) -> bool {
    exists|i: int| 0 <= i < ss.len() && ss[i] == s
}

/// The relation interning leaves behind: an existing string keeps the
/// storage and returns its position; a new string is appended and gets
/// the next symbol.
pub open spec fn post_intern(ss: Seq<Seq<char>>, s: Seq<char>, r: int, ss2: Seq<Seq<char>>) -> bool {
    if dict_contains(ss, s) {
        ss2 == ss && 0 <= r < ss.len() && ss[r] == s
    } else {
        ss2 == ss.push(s) && r == ss.len()
    }
}

/// The storage after interning every string of `vals`, in order, into
/// a dictionary whose storage is `ss`: a string not yet present is
/// appended once, at its first occurrence; nothing else changes.
pub open spec fn dict_after(ss: Seq<Seq<char>>, vals: Seq<Seq<char>>) -> Seq<Seq<char>>
    decreases vals.len(),
{
    if vals.len() == 0 {
        ss
    } else {
        let pre = dict_after(ss, vals.drop_last());
        if dict_contains(pre, vals.last()) {
            pre
        } else {
            pre.push(vals.last())
        }
    }
}

/// What reverse lookup returns: the string at the symbol's position,
/// or nothing for a symbol this dictionary never issued.
pub open spec fn spec_lookup_id(ss: Seq<Seq<char>>, id: int) -> Option<Seq<char>> {
    if 0 <= id < ss.len() {
        Some(ss[id])
    } else {
        None
    }
}

/// Total byte size of the interned strings, each length as the
/// machine reports it.
pub open spec fn storage_bytes(ss: Seq<Seq<char>>) -> int
    decreases ss.len(),
{
    if ss.len() == 0 {
        0
    } else {
        storage_bytes(ss.drop_last()) + vstd::utf8::encode_utf8(ss.last()).len() as usize
    }
}

/// Law: interning a string and reading its symbol back yields exactly
/// that string, and interning the same string again returns the same
/// symbol and leaves the dictionary unchanged.
pub proof fn lemma_dictionary_round_trip(
    ss: Seq<Seq<char>>,
    s: Seq<char>,
    r: int,
    ss2: Seq<Seq<char>>,
    r2: int,
    ss3: Seq<Seq<char>>,
)
    requires
        dict_distinct(ss),
        post_intern(ss, s, r, ss2),
        post_intern(ss2, s, r2, ss3),
    ensures
        spec_lookup_id(ss2, r) == Some(s),
        r2 == r,
        ss3 == ss2,
{
    assert(0 <= r < ss2.len() && ss2[r] == s);
    assert(dict_contains(ss2, s));
    if dict_contains(ss, s) {
        assert(ss2[r2] == s && ss2[r] == s);
        if r2 != r {
            assert(false);
        }
    } else {
        assert(dict_distinct(ss2)) by {
            assert forall|i: int, j: int| 0 <= i < j < ss2.len() implies ss2[i] != ss2[j] by {
                if j == ss.len() {
                    assert(ss2[j] == s);
                    assert(!dict_contains(ss, s));
                }
            }
        }
        assert(ss2[r2] == s && ss2[r] == s);
    }
}

/// A string dictionary: interned strings in symbol order, plus the
/// hashed index that finds a string's symbol without a scan.
pub struct StringDictionary {
    storage: Vec<String>,
    index: DedupIndex,
}

impl StringDictionary {
    /// The interned strings, in symbol order.
    pub closed spec fn strings(&self) -> Seq<Seq<char>> {
        self.storage@.map_values(|s: String| s@)
    }

    /// The storage and the hashed index agree: every stored string is
    /// indexed at its position, and the index holds nothing else.
    pub closed spec fn wf(&self) -> bool {
        &&& self.storage@.len() <= i32::MAX
        &&& forall|i: int|
            0 <= i < self.storage@.len() ==> dedup_contents(self.index).dom().contains(
                #[trigger] self.storage@[i]@,
            ) && dedup_contents(self.index)[self.storage@[i]@] == i
        &&& forall|s: Seq<char>|
            dedup_contents(self.index).dom().contains(s) ==> 0 <= #[trigger] dedup_contents(
                self.index,
            )[s] < self.storage@.len() && self.storage@[dedup_contents(self.index)[s] as int]@ == s
    }

    /// A well-formed dictionary never exceeds the symbol space.
    pub proof fn lemma_len_bound(&self)
        requires
            self.wf(),
        ensures
            self.strings().len() <= i32::MAX,
    {
    }

    /// A well-formed dictionary holds each string once.
    pub proof fn lemma_distinct(&self)
        requires
            self.wf(),
        ensures
            dict_distinct(self.strings()),
    {
        assert forall|i: int, j: int|
            0 <= i < j < self.strings().len() implies self.strings()[i] != self.strings()[j] by {
            assert(dedup_contents(self.index)[self.storage@[i]@] == i);
            assert(dedup_contents(self.index)[self.storage@[j]@] == j);
        }
    }

    pub fn new() -> (r: Self)
        ensures
            r.wf(),
            r.strings() == Seq::<Seq<char>>::empty(),
    {
        let r = StringDictionary { storage: Vec::new(), index: dedup_index_new() };
        proof {
            assert(r.strings() =~= Seq::<Seq<char>>::empty());
        }
        r
    }

    /// Number of interned strings.
    pub fn len(&self) -> (r: usize)
        ensures
            r == self.strings().len(),
    {
        self.storage.len()
    }

    /// Returns the symbol for `value`, interning it first if this
    /// dictionary has not seen it yet.
    pub fn lookup_value_or_insert(&mut self, value: &str) -> (r: DID)
        requires
            old(self).wf(),
            old(self).strings().len() < i32::MAX,
        ensures
            final(self).wf(),
            post_intern(old(self).strings(), value@, r as int, final(self).strings()),
    {
        match dedup_index_get(&self.index, value) {
            Some(k) => {
                proof {
                    assert(self.strings()[k as int] == value@);
                    assert(dict_contains(self.strings(), value@));
                }
                k as i32
            },
            None => {
                let k = self.storage.len();
                proof {
                    assert forall|i: int| 0 <= i < self.storage@.len() implies self.storage@[i]@
                        != value@ by {
                        assert(dedup_contents(self.index).dom().contains(self.storage@[i]@));
                    }
                    assert(!dict_contains(self.strings(), value@));
                }
                let ghost prev = *self;
                self.storage.push(value.to_owned());
                dedup_index_insert(&mut self.index, value, k);
                proof {
                    assert(self.strings() =~= prev.strings().push(value@));
                    assert forall|i: int|
                        0 <= i < self.storage@.len() implies dedup_contents(
                        self.index,
                    ).dom().contains(#[trigger] self.storage@[i]@) && dedup_contents(self.index)[
                        self.storage@[i]@] == i by {
                        if i < k {
                            assert(prev.storage@[i]@ != value@);
                        }
                    }
                }
                k as i32
            },
        }
    }

    /// Returns the symbol for `value` without interning it.
    pub fn id(&self, value: &str) -> (r: Option<DID>)
        requires
            self.wf(),
        ensures
            match r {
                Some(k) => 0 <= k < self.strings().len() && self.strings()[k as int] == value@,
                None => !dict_contains(self.strings(), value@),
            },
    {
        match dedup_index_get(&self.index, value) {
            Some(k) => {
                proof {
                    assert(self.strings()[k as int] == value@);
                }
                Some(k as i32)
            },
            None => {
                proof {
                    assert forall|i: int| 0 <= i < self.storage@.len() implies self.storage@[i]@
                        != value@ by {
                        assert(dedup_contents(self.index).dom().contains(self.storage@[i]@));
                    }
                }
                None
            },
        }
    }

    /// Returns the symbol for `value`, if any. Does not intern.
    pub fn lookup_value(&self, value: &str) -> (r: Option<DID>)
        requires
            self.wf(),
        ensures
            match r {
                Some(k) => 0 <= k < self.strings().len() && self.strings()[k as int] == value@,
                None => !dict_contains(self.strings(), value@),
            },
    {
        self.id(value)
    }

    /// Returns the string a symbol stands for, or nothing for a symbol
    /// this dictionary never issued, out-of-range values included.
    pub fn lookup_id(&self, id: DID) -> (r: Option<&str>)
        ensures
            match r {
                Some(s) => spec_lookup_id(self.strings(), id as int) == Some(s@),
                None => spec_lookup_id(self.strings(), id as int) is None,
            },
    {
        if id < 0 {
            return None;
        }
        let idx = id as usize;
        if idx >= self.storage.len() {
            return None;
        }
        Some(self.storage[idx].as_str())
    }

    /// The interned strings in symbol order.
    pub fn values(&self) -> (r: &Vec<String>)
        ensures
            r@.map_values(|s: String| s@) == self.strings(),
    {
        &self.storage
    }

    /// Approximate memory footprint: string bytes plus one symbol table
    /// entry per string, saturating at the machine limit.
    pub fn size(&self) -> (r: usize)
        ensures
            r == sat_cap(storage_bytes(self.strings()) + self.strings().len() * 4),
    {
        let total = vec_string_bytes(&self.storage);
        sat_add(total, sat_mul4(self.storage.len()))
    }
}

/// Total byte size of a vector of strings, saturating at the machine
/// limit.
pub(crate) fn vec_string_bytes(v: &Vec<String>) -> (r: usize)
    ensures
        r == sat_cap(storage_bytes(v@.map_values(|s: String| s@))),
{
    let ghost ss = v@.map_values(|s: String| s@);
    let mut total: usize = 0;
    let mut i: usize = 0;
    while i < v.len()
        invariant
            i <= v@.len(),
            ss == v@.map_values(|s: String| s@),
            total == sat_cap(storage_bytes(ss.take(i as int))),
        decreases v@.len() - i,
    {
        let len_i = v[i].as_str().len();
        total = sat_add(total, len_i);
        proof {
            let pre = ss.take(i as int);
            let ext = ss.take(i as int + 1);
            assert(ext.drop_last() =~= pre);
            assert(ext.last() == ss[i as int]);
            assert(ext.len() > 0);
            assert(storage_bytes(ext) == storage_bytes(pre) + vstd::utf8::encode_utf8(
                ss[i as int],
            ).len() as usize);
            assert(ss[i as int] == v@[i as int]@);
            assert(len_i == vstd::utf8::encode_utf8(ss[i as int]).len() as usize);
            assert(total == sat_cap(sat_cap(storage_bytes(pre)) + len_i));
            assert(total == sat_cap(storage_bytes(ext)));
        }
        i = i + 1;
    }
    proof {
        assert(ss.take(v@.len() as int) =~= ss);
    }
    total
}

/// The value `v` capped at the machine word limit.
pub open spec fn sat_cap(v: int) -> int {
    if v > usize::MAX {
        usize::MAX as int
    } else {
        v
    }
}

/// Saturating addition on machine words.
pub(crate) fn sat_add(a: usize, b: usize) -> (r: usize)
    ensures
        r == sat_cap(a + b),
{
    if a > usize::MAX - b {
        usize::MAX
    } else {
        a + b
    }
}

/// Four bytes per entry, saturating at the machine limit.
pub(crate) fn sat_mul4(n: usize) -> (r: usize)
    ensures
        r == sat_cap(n * 4),
{
    if n > usize::MAX / 4 {
        proof {
            assert(n * 4 > usize::MAX) by (nonlinear_arith)
                requires
                    n > usize::MAX / 4,
            ;
        }
        usize::MAX
    } else {
        proof {
            assert(n * 4 <= usize::MAX) by (nonlinear_arith)
                requires
                    n <= usize::MAX / 4,
            ;
        }
        n * 4
    }
}

/// Eight bytes per entry, saturating at the machine limit.
pub(crate) fn sat_mul8(n: usize) -> (r: usize)
    ensures
        r == sat_cap(n * 8),
{
    if n > usize::MAX / 8 {
        proof {
            assert(n * 8 > usize::MAX) by (nonlinear_arith)
                requires
                    n > usize::MAX / 8,
            ;
        }
        usize::MAX
    } else {
        proof {
            assert(n * 8 <= usize::MAX) by (nonlinear_arith)
                requires
                    n <= usize::MAX / 8,
            ;
        }
        n * 8
    }
}

} // verus!
