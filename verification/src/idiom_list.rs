//! Idiom wordlist and lookup.
//!
//! The wordlist holds 4096 four-character idioms (12 bits each), in the
//! order that gives each idiom its index, and optionally their pinyin.
//! Beside it a search array orders (idiom, index) pairs by Unicode
//! codepoint, for O(log N) binary search lookup.
use vstd::prelude::*;
use vstd::string::*;

verus! {

/// Number of idioms in a wordlist.
pub const IDIOM_COUNT: usize = 4096;

/// Characters that separate idioms in a phrase: half-width space,
/// full-width space (U+3000) and tab.
pub open spec fn is_separator(c: char) -> bool {
    c == ' ' || c == '\u{3000}' || c == '\t'
}

/// An idiom the wordlist can hold: four characters.
pub open spec fn is_valid_idiom(s: Seq<char>) -> bool {
    s.len() == 4
}

/// A valid wordlist: 4096 valid idioms, no two alike.
pub open spec fn is_valid_wordlist(words: Seq<Seq<char>>) -> bool {
    &&& words.len() == 4096
    &&& forall|i: int| 0 <= i < 4096 ==> is_valid_idiom(#[trigger] words[i])
    &&& forall|i: int, j: int| 0 <= i < j < 4096 ==> words[i] != words[j]
}

/// The characters of a list of strings.
pub open spec fn string_views(v: Seq<String>) -> Seq<Seq<char>> {
    v.map_values(|s: String| s@)
}

/// Base of the codepoint key: every `char` is below `2^21`.
pub open spec fn key_base() -> int {
    0x20_0000
}

/// The codepoints of a four-character string read as one number in base
/// `2^21`; comparing keys compares the strings by codepoint.
pub open spec fn idiom_key(s: Seq<char>) -> int {
    ((s[0] as int * key_base() + s[1] as int) * key_base() + s[2] as int) * key_base() + s[3] as int
}

/// The index of an idiom in a wordlist, where it is there.
pub open spec fn index_of_idiom(words: Seq<Seq<char>>, idiom: Seq<char>) -> Option<usize> {
    if exists|i: int| 0 <= i < words.len() && words[i] == idiom {
        Some((choose|i: int| 0 <= i < words.len() && words[i] == idiom) as usize)
    } else {
        None
    }
}

/// Some entry of `entries` carries index `i`.
pub open spec fn has_index<K>(entries: Seq<(K, usize)>, i: int) -> bool {
    exists|t: int| 0 <= t < entries.len() && #[trigger] entries[t].1 == i
}

/// Every `char` is below `2^21`.
pub proof fn lemma_char_bound(c: char)
    ensures
        0 <= (c as int) < key_base(),
        c as u32 as int == c as int,
{
    vstd::utf8::char_is_scalar(c);
}

proof fn lemma_digit(x: int, a: int, y: int, b: int)
    requires
        0 <= a < key_base(),
        0 <= b < key_base(),
        x * key_base() + a == y * key_base() + b,
    ensures
        x == y,
        a == b,
{
    assert(x == y && a == b) by (nonlinear_arith)
        requires
            0 <= a < 0x20_0000,
            0 <= b < 0x20_0000,
            x * 0x20_0000 + a == y * 0x20_0000 + b,
    ;
}

/// Four-character strings with the same key are the same string.
pub proof fn lemma_key_injective(s: Seq<char>, t: Seq<char>)
    requires
        s.len() == 4,
        t.len() == 4,
        idiom_key(s) == idiom_key(t),
    ensures
        s == t,
{
    lemma_char_bound(s[0]);
    lemma_char_bound(s[1]);
    lemma_char_bound(s[2]);
    lemma_char_bound(s[3]);
    lemma_char_bound(t[0]);
    lemma_char_bound(t[1]);
    lemma_char_bound(t[2]);
    lemma_char_bound(t[3]);
    assert(s[0] as int * key_base() + s[1] as int >= 0);
    assert(t[0] as int * key_base() + t[1] as int >= 0);
    lemma_digit(
        (s[0] as int * key_base() + s[1] as int) * key_base() + s[2] as int,
        s[3] as int,
        (t[0] as int * key_base() + t[1] as int) * key_base() + t[2] as int,
        t[3] as int,
    );
    lemma_digit(s[0] as int * key_base() + s[1] as int, s[2] as int, t[0] as int * key_base() + t[1] as int, t[2] as int);
    lemma_digit(s[0] as int, s[1] as int, t[0] as int, t[1] as int);
    assert(s =~= t);
}

/// The key of a four-character string fits in a `u128`.
proof fn lemma_key_bounds(s: Seq<char>)
    requires
        s.len() == 4,
    ensures
        0 <= idiom_key(s) < 0x1_0000_0000_0000_0000_0000_0000,
{
    lemma_char_bound(s[0]);
    lemma_char_bound(s[1]);
    lemma_char_bound(s[2]);
    lemma_char_bound(s[3]);
    let a = s[0] as int;
    let b = s[1] as int;
    let c = s[2] as int;
    let d = s[3] as int;
    assert(0 <= ((a * 0x20_0000 + b) * 0x20_0000 + c) * 0x20_0000 + d < 0x1_0000_0000_0000_0000_0000_0000) by (nonlinear_arith)
        requires
            0 <= a < 0x20_0000,
            0 <= b < 0x20_0000,
            0 <= c < 0x20_0000,
            0 <= d < 0x20_0000,
    ;
}

/// In a valid wordlist, looking up the idiom at index `i` gives `i`, and a
/// lookup that finds an index finds the idiom sitting there.
pub proof fn law_index_roundtrip(words: Seq<Seq<char>>, i: int, idiom: Seq<char>)
    requires
        is_valid_wordlist(words),
    ensures
        0 <= i < 4096 ==> index_of_idiom(words, words[i]) == Some(i as usize),
        index_of_idiom(words, idiom) matches Some(j) ==> j < 4096 && words[j as int] == idiom,
{
    if 0 <= i < 4096 {
        let w = words[i];
        assert(exists|j: int| 0 <= j < words.len() && words[j] == w);
        let j = choose|j: int| 0 <= j < words.len() && words[j] == w;
        if j != i {
            if j < i {
                assert(words[j] != words[i]);
            } else {
                assert(words[i] != words[j]);
            }
        }
    }
}

/// The codepoint key of a four-character string; `None` for other lengths.
fn four_char_key(s: &str) -> (key: Option<u128>)
    ensures
        key is Some <==> s@.len() == 4,
        key matches Some(k) ==> k as int == idiom_key(s@),
{
    if s.unicode_len() != 4 {
        return None;
    }
    let c0 = s.get_char(0) as u32 as u128;
    let c1 = s.get_char(1) as u32 as u128;
    let c2 = s.get_char(2) as u32 as u128;
    let c3 = s.get_char(3) as u32 as u128;
    proof {
        lemma_char_bound(s@[0]);
        lemma_char_bound(s@[1]);
        lemma_char_bound(s@[2]);
        lemma_char_bound(s@[3]);
        lemma_key_bounds(s@);
        assert(((c0 * 0x20_0000 + c1) * 0x20_0000 + c2) * 0x20_0000 < 0x1_0000_0000_0000_0000_0000_0000) by (nonlinear_arith)
            requires
                c0 < 0x20_0000,
                c1 < 0x20_0000,
                c2 < 0x20_0000,
        ;
        assert((c0 * 0x20_0000 + c1) * 0x20_0000 < 0x1_0000_0000_0000_0000_0000) by (nonlinear_arith)
            requires
                c0 < 0x20_0000,
                c1 < 0x20_0000,
        ;
    }
    Some(((c0 * 0x20_0000 + c1) * 0x20_0000 + c2) * 0x20_0000 + c3)
}

/// A wordlist of 4096 four-character Chinese idioms.
///
/// Each idiom encodes 12 bits of information.  Lookup by idiom uses binary
/// search over an array ordered by Unicode codepoint.
#[derive(Debug, PartialEq, Eq)]
pub struct ChineseIdiomList {
    idioms: Vec<String>,
    search: Vec<(u128, usize)>,
    pinyin: Vec<String>,
}

impl ChineseIdiomList {
    /// The idioms, in index order.
    pub closed spec fn words(&self) -> Seq<Seq<char>> {
        string_views(self.idioms@)
    }

    /// The pinyin of the idioms, in index order (empty when not supplied).
    pub closed spec fn pinyins(&self) -> Seq<Seq<char>> {
        string_views(self.pinyin@)
    }

    /// The search array is ordered by key and pairs each idiom with its index.
    closed spec fn search_ok(&self) -> bool {
        &&& self.search@.len() == 4096
        &&& forall|t1: int, t2: int|
            0 <= t1 < t2 < 4096 ==> #[trigger] self.search@[t1].0 < #[trigger] self.search@[t2].0
        &&& forall|t: int|
            0 <= t < 4096 ==> {
                &&& (#[trigger] self.search@[t]).1 < 4096
                &&& self.search@[t].0 as int == idiom_key(self.words()[self.search@[t].1 as int])
            }
        &&& forall|i: int| 0 <= i < 4096 ==> #[trigger] has_index(self.search@, i)
    }

    /// Well-formedness: a valid wordlist, pinyin absent or one per idiom, and
    /// a search array that matches the idioms.
    #[verifier::type_invariant]
    pub closed spec fn wf(&self) -> bool {
        &&& is_valid_wordlist(self.words())
        &&& (self.pinyin@.len() == 0 || self.pinyin@.len() == 4096)
        &&& self.search_ok()
    }

    /// What a well-formed list holds.
    pub proof fn lemma_wf(&self)
        requires
            self.wf(),
        ensures
            is_valid_wordlist(self.words()),
            self.pinyins().len() == 0 || self.pinyins().len() == 4096,
    {
    }

    /// Build a wordlist from its idioms (in index order) and their pinyin
    /// (empty, or one per idiom).
    ///
    /// Returns `None` unless there are exactly 4096 idioms, each of four
    /// characters, no two alike, and the pinyin list is
    /// empty or as long as the idiom list.
    pub fn from_idioms(idioms: Vec<String>, pinyin: Vec<String>) -> (list: Option<Self>)
        ensures
            list is Some <==> (is_valid_wordlist(string_views(idioms@)) && (pinyin@.len() == 0
                || pinyin@.len() == 4096)),
            list matches Some(l) ==> l.words() == string_views(idioms@) && l.pinyins()
                == string_views(pinyin@),
    {
        let ghost words = string_views(idioms@);
        if idioms.len() != 4096 {
            return None;
        }
        if !(pinyin.len() == 0 || pinyin.len() == 4096) {
            return None;
        }
        let mut search: Vec<(u128, usize)> = Vec::with_capacity(4096);
        let mut i: usize = 0;
        while i < 4096
            invariant
                idioms@.len() == 4096,
                words == string_views(idioms@),
                0 <= i <= 4096,
                search@.len() == i,
                forall|j: int| 0 <= j < i ==> is_valid_idiom(#[trigger] words[j]),
                forall|t1: int, t2: int|
                    0 <= t1 < t2 < i ==> #[trigger] search@[t1].0 < #[trigger] search@[t2].0,
                forall|t: int|
                    0 <= t < i ==> {
                        &&& (#[trigger] search@[t]).1 < i
                        &&& search@[t].0 as int == idiom_key(words[search@[t].1 as int])
                    },
                forall|j: int| 0 <= j < i ==> #[trigger] has_index(search@, j),
            decreases 4096 - i,
        {
            let word: &str = idioms[i].as_str();
            assert(word@ == words[i as int]);
            let key = match four_char_key(word) {
                Some(k) => k,
                None => {
                    return None;
                },
            };
            // Find the insertion point, refusing a duplicate.
            let mut lo: usize = 0;
            let mut hi: usize = i;
            while lo < hi
                invariant
                    idioms@.len() == 4096,
                    words == string_views(idioms@),
                    i < 4096,
                    key as int == idiom_key(words[i as int]),
                    words[i as int].len() == 4,
                    forall|j: int| 0 <= j < i ==> is_valid_idiom(#[trigger] words[j]),
                    forall|t: int|
                        0 <= t < i ==> {
                            &&& (#[trigger] search@[t]).1 < i
                            &&& search@[t].0 as int == idiom_key(words[search@[t].1 as int])
                        },
                    search@.len() == i,
                    0 <= lo <= hi <= i,
                    forall|t1: int, t2: int|
                        0 <= t1 < t2 < i ==> #[trigger] search@[t1].0 < #[trigger] search@[t2].0,
                    forall|t: int| 0 <= t < lo ==> #[trigger] search@[t].0 < key,
                    forall|t: int| hi <= t < i ==> #[trigger] search@[t].0 > key,
                decreases hi - lo,
            {
                let mid = lo + (hi - lo) / 2;
                let mk = search[mid].0;
                if mk == key {
                    proof {
                        let j = search@[mid as int].1 as int;
                        assert(is_valid_idiom(words[j]));
                        lemma_key_injective(words[j], words[i as int]);
                        assert(!is_valid_wordlist(words));
                    }
                    return None;
                } else if mk < key {
                    lo = mid + 1;
                } else {
                    hi = mid;
                }
            }
            let ghost old_search = search@;
            search.insert(lo, (key, i));
            proof {
                old_search.insert_ensures(lo as int, (key, i));
                assert forall|j: int| 0 <= j < i + 1 implies #[trigger] has_index(search@, j) by {
                    if j == i {
                        assert(search@[lo as int].1 == j);
                    } else {
                        assert(has_index(old_search, j));
                        let t0 = choose|t: int| 0 <= t < old_search.len() && #[trigger] old_search[t].1 == j;
                        if t0 < lo {
                            assert(search@[t0].1 == j);
                        } else {
                            assert(search@[t0 + 1].1 == j);
                        }
                    }
                }
                assert forall|t1: int, t2: int|
                    0 <= t1 < t2 < i + 1 implies #[trigger] search@[t1].0 < #[trigger] search@[t2].0 by {
                    if t2 < lo {
                    } else if t1 > lo {
                        assert(search@[t1].0 == old_search[t1 - 1].0);
                        assert(search@[t2].0 == old_search[t2 - 1].0);
                    } else if t1 == lo {
                        assert(search@[t2].0 == old_search[t2 - 1].0);
                    } else if t2 == lo {
                    } else {
                        assert(search@[t2].0 == old_search[t2 - 1].0);
                    }
                }
                assert forall|t: int| 0 <= t < i + 1 implies {
                    &&& (#[trigger] search@[t]).1 < i + 1
                    &&& search@[t].0 as int == idiom_key(words[search@[t].1 as int])
                } by {
                    if t > lo {
                        assert(search@[t] == old_search[t - 1]);
                    }
                }
            }
            i = i + 1;
        }
        proof {
            assert forall|a: int, b: int| 0 <= a < b < 4096 implies words[a] != words[b] by {
                assert(has_index(search@, a));
                assert(has_index(search@, b));
                let ta = choose|t: int| 0 <= t < search@.len() && #[trigger] search@[t].1 == a;
                let tb = choose|t: int| 0 <= t < search@.len() && #[trigger] search@[t].1 == b;
                if words[a] == words[b] {
                    if ta < tb {
                        assert(search@[ta].0 < search@[tb].0);
                    } else if tb < ta {
                        assert(search@[tb].0 < search@[ta].0);
                    }
                }
            }
        }
        let list = ChineseIdiomList { idioms, search, pinyin };
        Some(list)
    }

    /// Look up an idiom's index via binary search (O(log N)).
    ///
    /// Returns `None` immediately for non-four-character input (fast path),
    /// and `None` for any string that is not in the list.
    pub fn idiom_to_index(&self, idiom: &str) -> (index: Option<usize>)
        ensures
            index == index_of_idiom(self.words(), idiom@),
            index matches Some(i) ==> i < 4096 && self.words()[i as int] == idiom@,
            index is None ==> forall|i: int| 0 <= i < 4096 ==> self.words()[i] != idiom@,
    {
        proof {
            use_type_invariant(self);
        }
        let key = match four_char_key(idiom) {
            Some(k) => k,
            None => {
                proof {
                    assert forall|i: int| 0 <= i < 4096 implies self.words()[i] != idiom@ by {
                        assert(is_valid_idiom(self.words()[i]));
                    }
                }
                return None;
            },
        };
        let mut lo: usize = 0;
        let mut hi: usize = 4096;
        while lo < hi
            invariant
                self.wf(),
                0 <= lo <= hi <= 4096,
                key as int == idiom_key(idiom@),
                idiom@.len() == 4,
                forall|t: int| 0 <= t < lo ==> #[trigger] self.search@[t].0 < key,
                forall|t: int| hi <= t < 4096 ==> #[trigger] self.search@[t].0 > key,
            decreases hi - lo,
        {
            let mid = lo + (hi - lo) / 2;
            let mk = self.search[mid].0;
            if mk == key {
                let idx = self.search[mid].1;
                proof {
                    lemma_key_injective(self.words()[idx as int], idiom@);
                    self.lemma_index_unique(idx as int, idiom@);
                }
                return Some(idx);
            } else if mk < key {
                lo = mid + 1;
            } else {
                hi = mid;
            }
        }
        proof {
            assert forall|i: int| 0 <= i < 4096 implies self.words()[i] != idiom@ by {
                assert(has_index(self.search@, i));
                let t = choose|t: int| 0 <= t < self.search@.len() && #[trigger] self.search@[t].1 == i;
                assert(self.search@[t].0 as int == idiom_key(self.words()[i]));
            }
        }
        None
    }

    /// An idiom sits at exactly one index of a well-formed list.
    proof fn lemma_index_unique(&self, i: int, idiom: Seq<char>)
        requires
            self.wf(),
            0 <= i < 4096,
            self.words()[i] == idiom,
        ensures
            index_of_idiom(self.words(), idiom) == Some(i as usize),
    {
        let words = self.words();
        assert(exists|j: int| 0 <= j < words.len() && words[j] == idiom);
        let j = choose|j: int| 0 <= j < words.len() && words[j] == idiom;
        if j != i {
            if j < i {
                assert(words[j] != words[i]);
            } else {
                assert(words[i] != words[j]);
            }
        }
    }

    /// Look up an idiom by its index (O(1) direct lookup).
    pub fn index_to_idiom(&self, index: usize) -> (idiom: Option<&str>)
        ensures
            idiom is Some <==> index < 4096,
            idiom matches Some(s) ==> s@ == self.words()[index as int],
    {
        proof {
            use_type_invariant(self);
        }
        if index < self.idioms.len() {
            Some(self.idioms[index].as_str())
        } else {
            None
        }
    }

    /// Get the pinyin for an idiom by index (only available when the list
    /// was built with pinyin).
    pub fn get_pinyin(&self, index: usize) -> (pinyin: Option<&str>)
        ensures
            pinyin is Some <==> index < self.pinyins().len(),
            pinyin matches Some(s) ==> s@ == self.pinyins()[index as int],
    {
        if index < self.pinyin.len() {
            Some(self.pinyin[index].as_str())
        } else {
            None
        }
    }

    /// Return the wordlist size (fixed at 4096).
    pub fn len() -> (n: usize)
        ensures
            n == 4096,
    {
        IDIOM_COUNT
    }

    /// The (idiom, index) pairs in codepoint order, as used for lookup.
    pub fn search_array(&self) -> (entries: Vec<(&str, usize)>)
        ensures
            entries@.len() == 4096,
            forall|t: int|
                0 <= t < 4096 ==> (#[trigger] entries@[t]).1 < 4096 && entries@[t].0@
                    == self.words()[entries@[t].1 as int],
            forall|t1: int, t2: int|
                0 <= t1 < t2 < 4096 ==> idiom_key(#[trigger] entries@[t1].0@) < idiom_key(
                    #[trigger] entries@[t2].0@,
                ),
            forall|i: int| 0 <= i < 4096 ==> #[trigger] has_index(entries@, i),
    {
        proof {
            use_type_invariant(self);
        }
        let mut entries: Vec<(&str, usize)> = Vec::with_capacity(4096);
        let mut t: usize = 0;
        while t < 4096
            invariant
                self.wf(),
                0 <= t <= 4096,
                entries@.len() == t,
                forall|u: int|
                    0 <= u < t ==> #[trigger] entries@[u].1 == self.search@[u].1 && entries@[u].0@
                        == self.words()[self.search@[u].1 as int],
            decreases 4096 - t,
        {
            let idx = self.search[t].1;
            proof {
                assert(self.search@[t as int].1 < 4096);
                assert(self.words()[idx as int] == self.idioms@[idx as int]@);
            }
            entries.push((self.idioms[idx].as_str(), idx));
            t = t + 1;
        }
        proof {
            assert forall|t1: int, t2: int| 0 <= t1 < t2 < 4096 implies idiom_key(
                #[trigger] entries@[t1].0@,
            ) < idiom_key(#[trigger] entries@[t2].0@) by {
                assert(self.search@[t1].0 < self.search@[t2].0);
                assert(entries@[t1].1 == self.search@[t1].1);
                assert(entries@[t2].1 == self.search@[t2].1);
                assert(self.search@[t1].0 as int == idiom_key(entries@[t1].0@));
                assert(self.search@[t2].0 as int == idiom_key(entries@[t2].0@));
            }
            assert forall|i: int| 0 <= i < 4096 implies #[trigger] has_index(entries@, i) by {
                assert(has_index(self.search@, i));
                let u = choose|u: int| 0 <= u < self.search@.len() && #[trigger] self.search@[u].1 == i;
                assert(entries@[u].1 == i);
            }
        }
        entries
    }
}

/// A copy of a list of strings.
fn clone_strings(v: &Vec<String>) -> (copy: Vec<String>)
    ensures
        copy@ == v@,
{
    let mut copy: Vec<String> = Vec::with_capacity(v.len());
    let mut k: usize = 0;
    while k < v.len()
        invariant
            0 <= k <= v@.len(),
            copy@ =~= v@.take(k as int),
        decreases v@.len() - k,
    {
        copy.push(v[k].clone());
        k = k + 1;
    }
    assert(v@.take(v@.len() as int) =~= v@);
    copy
}

impl Clone for ChineseIdiomList {
    /// A copy of the wordlist: the same idioms and pinyin.
    fn clone(&self) -> (copy: Self)
        ensures
            copy.words() == self.words(),
            copy.pinyins() == self.pinyins(),
    {
        proof {
            use_type_invariant(self);
        }
        let idioms = clone_strings(&self.idioms);
        let pinyin = clone_strings(&self.pinyin);
        let mut search: Vec<(u128, usize)> = Vec::with_capacity(self.search.len());
        let mut k: usize = 0;
        while k < self.search.len()
            invariant
                0 <= k <= self.search@.len(),
                search@ =~= self.search@.take(k as int),
            decreases self.search@.len() - k,
        {
            search.push(self.search[k]);
            k = k + 1;
        }
        assert(self.search@.take(self.search@.len() as int) =~= self.search@);
        ChineseIdiomList { idioms, search, pinyin }
    }
}

} // verus!
