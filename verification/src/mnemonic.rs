//! Core mnemonic types.
use crate::entropy::{
    bytes_result, checksum_matches, entropy_to_indices,
    entropy_to_indices_spec, generate_entropy, indices_entropy, indices_to_entropy,
    indices_to_entropy_inner, indices_to_entropy_spec, is_valid_entropy_bits,
    is_valid_word_count, validate_mnemonic_length,
};
use crate::entropy_laws::{
    lemma_all_in_range, lemma_encode_decode, lemma_first_out_of_range_none, lemma_sizes,
};
use crate::error::Error;
use crate::idiom_list::{index_of_idiom, is_valid_wordlist, ChineseIdiomList};
use crate::phrase::{
    is_plain_word, is_separator_run, join_with, join_words, law_split_separator_runs,
    plain_wordlist, plain_words, separator_runs, split_words, split_words_spec, str_views,
};
use crate::seed::{mnemonic_to_seed, mnemonic_to_seed_with_iterations, seed_spec};
use vstd::prelude::*;
use vstd::string::*;

verus! {

/// Mnemonic length variants.
#[derive(Debug, Clone, Copy, PartialEq, Eq)]
pub enum IdiomMnemonicSize {
    /// 12 idioms, 128 bits of entropy + 16-bit checksum
    Idioms12,
    /// 15 idioms, 160 bits of entropy + 20-bit checksum
    Idioms15,
    /// 18 idioms, 192 bits of entropy + 24-bit checksum
    Idioms18,
    /// 21 idioms, 224 bits of entropy + 28-bit checksum
    Idioms21,
    /// 24 idioms, 256 bits of entropy + 32-bit checksum
    Idioms24,
}

/// Entropy bits of each size.
pub open spec fn size_entropy_bits(size: IdiomMnemonicSize) -> int {
    match size {
        IdiomMnemonicSize::Idioms12 => 128,
        IdiomMnemonicSize::Idioms15 => 160,
        IdiomMnemonicSize::Idioms18 => 192,
        IdiomMnemonicSize::Idioms21 => 224,
        IdiomMnemonicSize::Idioms24 => 256,
    }
}

/// Idiom count of each size.
pub open spec fn size_idiom_count(size: IdiomMnemonicSize) -> int {
    match size {
        IdiomMnemonicSize::Idioms12 => 12,
        IdiomMnemonicSize::Idioms15 => 15,
        IdiomMnemonicSize::Idioms18 => 18,
        IdiomMnemonicSize::Idioms21 => 21,
        IdiomMnemonicSize::Idioms24 => 24,
    }
}

impl IdiomMnemonicSize {
    /// The corresponding entropy size in bits.
    pub fn entropy_bits(&self) -> (bits: usize)
        ensures
            bits == size_entropy_bits(*self),
    {
        match self {
            IdiomMnemonicSize::Idioms12 => 128,
            IdiomMnemonicSize::Idioms15 => 160,
            IdiomMnemonicSize::Idioms18 => 192,
            IdiomMnemonicSize::Idioms21 => 224,
            IdiomMnemonicSize::Idioms24 => 256,
        }
    }

    /// The size with `count` idioms; `None` unless `count` is 12, 15, 18,
    /// 21 or 24.
    pub fn from_idiom_count(count: u32) -> (size: Option<IdiomMnemonicSize>)
        ensures
            size is Some <==> is_valid_word_count(count as int),
            size matches Some(s) ==> size_idiom_count(s) == count,
    {
        match count {
            12 => Some(IdiomMnemonicSize::Idioms12),
            15 => Some(IdiomMnemonicSize::Idioms15),
            18 => Some(IdiomMnemonicSize::Idioms18),
            21 => Some(IdiomMnemonicSize::Idioms21),
            24 => Some(IdiomMnemonicSize::Idioms24),
            _ => None,
        }
    }

    /// The corresponding idiom count.
    pub fn idiom_count(&self) -> (count: usize)
        ensures
            count == size_idiom_count(*self),
    {
        match self {
            IdiomMnemonicSize::Idioms12 => 12,
            IdiomMnemonicSize::Idioms15 => 15,
            IdiomMnemonicSize::Idioms18 => 18,
            IdiomMnemonicSize::Idioms21 => 21,
            IdiomMnemonicSize::Idioms24 => 24,
        }
    }
}

/// Every size is a valid entropy size whose words, at 12 bits each, carry
/// the entropy and a checksum of one eighth of it.
pub proof fn law_size_consistent(size: IdiomMnemonicSize)
    ensures
        is_valid_entropy_bits(size_entropy_bits(size)),
        is_valid_word_count(size_idiom_count(size)),
        size_idiom_count(size) * 12 == size_entropy_bits(size) + size_entropy_bits(size) / 8,
{
}

/// Indices widened to `usize`.
pub open spec fn widen(s: Seq<u16>) -> Seq<usize> {
    s.map_values(|x: u16| x as usize)
}

/// Indices narrowed to `u16`.
pub open spec fn narrow(s: Seq<usize>) -> Seq<u16> {
    s.map_values(|x: usize| x as u16)
}

/// Indices that make a mnemonic: a valid count of indices below 4096 whose
/// checksum matches.
pub open spec fn is_valid_mnemonic(s: Seq<u16>) -> bool {
    indices_to_entropy_spec(widen(s)) is Ok
}

/// The idioms of the indices `s` in the wordlist `words`.
pub open spec fn idiom_words(words: Seq<Seq<char>>, s: Seq<u16>) -> Seq<Seq<char>> {
    s.map_values(|i: u16| words[i as int])
}

/// The phrase of the indices `s`: their idioms joined by spaces.
pub open spec fn phrase_spec(words: Seq<Seq<char>>, s: Seq<u16>) -> Seq<char> {
    join_words(idiom_words(words, s))
}

/// The first word that is not in the wordlist, if any.
pub open spec fn first_unknown(words: Seq<Seq<char>>, toks: Seq<Seq<char>>) -> Option<Seq<char>>
    decreases toks.len(),
{
    if toks.len() == 0 {
        None
    } else if index_of_idiom(words, toks[0]) is None {
        Some(toks[0])
    } else {
        first_unknown(words, toks.drop_first())
    }
}

/// The index of each word (0 for a word not in the list).
pub open spec fn lookup_all(words: Seq<Seq<char>>, toks: Seq<Seq<char>>) -> Seq<usize> {
    toks.map_values(
        |t: Seq<char>|
            match index_of_idiom(words, t) {
                Some(i) => i,
                None => 0usize,
            },
    )
}

/// The words of `phrase` are a valid count of idioms of the list whose
/// checksum matches.
pub open spec fn phrase_is_valid(words: Seq<Seq<char>>, phrase: Seq<char>) -> bool {
    let toks = split_words_spec(phrase);
    &&& is_valid_word_count(toks.len() as int)
    &&& first_unknown(words, toks) is None
    &&& checksum_matches(lookup_all(words, toks))
}

/// The mnemonic indices a valid phrase stands for.
pub open spec fn phrase_indices(words: Seq<Seq<char>>, phrase: Seq<char>) -> Seq<u16> {
    narrow(lookup_all(words, split_words_spec(phrase)))
}

/// What parsing `phrase` against the wordlist `words` gives, on the indices:
/// `InvalidLength` for a word count other than 12/15/18/21/24, then
/// `InvalidIdiom` with the first word not in the list, then
/// `ChecksumMismatch`, and otherwise the indices of the words.
pub open spec fn phrase_outcome(words: Seq<Seq<char>>, phrase: Seq<char>, r: Result<Seq<u16>, Error>) -> bool {
    let toks = split_words_spec(phrase);
    if !is_valid_word_count(toks.len() as int) {
        r == Err::<Seq<u16>, Error>(Error::InvalidLength(toks.len() as usize))
    } else if first_unknown(words, toks) is Some {
        r matches Err(Error::InvalidIdiom(s)) && s@ == first_unknown(words, toks)->Some_0
    } else if !checksum_matches(lookup_all(words, toks)) {
        r == Err::<Seq<u16>, Error>(Error::ChecksumMismatch)
    } else {
        r == Ok::<Seq<u16>, Error>(phrase_indices(words, phrase))
    }
}

/// What `from_entropy` returns, on the indices.
pub open spec fn from_entropy_spec(entropy: Seq<u8>) -> Result<Seq<u16>, Error> {
    if is_valid_entropy_bits(8 * entropy.len() as int) {
        Ok(narrow(entropy_to_indices_spec(entropy)))
    } else {
        Err(Error::InvalidEntropyLength((8 * entropy.len()) as usize))
    }
}

/// An idiom-based mnemonic.
///
/// Stores idiom indices as `Vec<u16>` (2 bytes per index); the idioms are
/// read from a wordlist when needed.
#[derive(Debug, PartialEq, Eq)]
pub struct IdiomMnemonic {
    indices: Vec<u16>,
}

impl View for IdiomMnemonic {
    type V = Seq<u16>;

    closed spec fn view(&self) -> Seq<u16> {
        self.indices@
    }
}

impl Clone for IdiomMnemonic {
    /// A copy of the mnemonic.
    fn clone(&self) -> (copy: Self)
        ensures
            copy@ == self@,
    {
        proof {
            use_type_invariant(self);
        }
        let mut indices: Vec<u16> = Vec::with_capacity(self.indices.len());
        let mut k: usize = 0;
        while k < self.indices.len()
            invariant
                0 <= k <= self.indices@.len(),
                indices@ =~= self.indices@.take(k as int),
            decreases self.indices@.len() - k,
        {
            indices.push(self.indices[k]);
            k = k + 1;
        }
        assert(self.indices@.take(self.indices@.len() as int) =~= self.indices@);
        IdiomMnemonic { indices }
    }
}

/// The view of a result carrying a mnemonic.
pub open spec fn mnemonic_result(r: Result<IdiomMnemonic, Error>) -> Result<Seq<u16>, Error> {
    match r {
        Ok(m) => Ok(m@),
        Err(e) => Err(e),
    }
}

proof fn lemma_widen_narrow(s: Seq<usize>)
    requires
        forall|i: int| 0 <= i < s.len() ==> s[i] < 4096,
    ensures
        widen(narrow(s)) == s,
{
    assert(widen(narrow(s)) =~= s);
}

/// Indices below 4096 from a valid count and a matching checksum make a
/// mnemonic.
proof fn lemma_valid_mnemonic(s: Seq<u16>)
    requires
        is_valid_word_count(s.len() as int),
        forall|i: int| 0 <= i < s.len() ==> s[i] < 4096,
        checksum_matches(widen(s)),
    ensures
        is_valid_mnemonic(s),
{
    lemma_all_in_range(widen(s));
}

/// The indices of valid entropy are below 4096 and, narrowed, make a
/// mnemonic.
proof fn lemma_entropy_mnemonic(entropy: Seq<u8>)
    requires
        is_valid_entropy_bits(8 * entropy.len() as int),
    ensures
        forall|i: int|
            0 <= i < entropy_to_indices_spec(entropy).len() ==> entropy_to_indices_spec(entropy)[i]
                < 4096,
        is_valid_mnemonic(narrow(entropy_to_indices_spec(entropy))),
{
    lemma_encode_decode(entropy);
    let ix = entropy_to_indices_spec(entropy);
    lemma_widen_narrow(ix);
    lemma_valid_mnemonic(narrow(ix));
}

/// What a valid mnemonic's indices satisfy.
pub proof fn lemma_mnemonic_facts(s: Seq<u16>)
    requires
        is_valid_mnemonic(s),
    ensures
        is_valid_word_count(s.len() as int),
        forall|i: int| 0 <= i < s.len() ==> s[i] < 4096,
        checksum_matches(widen(s)),
        indices_to_entropy_spec(widen(s)) == Ok::<Seq<u8>, Error>(indices_entropy(widen(s))),
{
    lemma_first_out_of_range_none(widen(s));
    assert forall|i: int| 0 <= i < s.len() implies s[i] < 4096 by {
        assert(widen(s)[i] == s[i] as usize);
    }
}

impl IdiomMnemonic {
    /// Indices that make a mnemonic.
    #[verifier::type_invariant]
    closed spec fn wf(&self) -> bool {
        is_valid_mnemonic(self.indices@)
    }

    /// Generate a random mnemonic.
    ///
    /// Uses the operating system's cryptographically secure random source;
    /// the mnemonic is the one of the entropy drawn.
    pub fn generate(size: IdiomMnemonicSize) -> (res: Result<Self, Error>)
        ensures
            res matches Ok(m) ==> m@.len() == size_idiom_count(size) && exists|e: Seq<u8>|
                8 * e.len() == size_entropy_bits(size) && #[trigger] from_entropy_spec(e) == Ok::<
                    Seq<u16>,
                    Error,
                >(m@),
            res matches Err(e) ==> e is RandError,
    {
        let entropy = match generate_entropy(size.entropy_bits()) {
            Ok(e) => e,
            Err(e) => {
                return Err(e);
            },
        };
        let res = Self::from_entropy(entropy.as_slice());
        proof {
            lemma_sizes(entropy@.len() as int);
            lemma_encode_decode(entropy@);
            if res is Ok {
                assert(from_entropy_spec(entropy@) == Ok::<Seq<u16>, Error>(res->Ok_0@));
            }
        }
        res
    }

    /// Create a mnemonic from entropy bytes.
    ///
    /// Entropy must be 16/20/24/28/32 bytes (128/160/192/224/256 bits).
    pub fn from_entropy(entropy: &[u8]) -> (res: Result<Self, Error>)
        requires
            entropy@.len() * 8 <= usize::MAX,
        ensures
            mnemonic_result(res) == from_entropy_spec(entropy@),
    {
        let entropy_bits = entropy.len() * 8;
        if !(entropy_bits == 128 || entropy_bits == 160 || entropy_bits == 192 || entropy_bits
            == 224 || entropy_bits == 256) {
            return Err(Error::InvalidEntropyLength(entropy_bits));
        }
        proof {
            lemma_sizes(entropy@.len() as int);
            lemma_entropy_mnemonic(entropy@);
        }
        let indices = entropy_to_indices(entropy);
        let ghost ix = indices@;
        let mut indices_u16: Vec<u16> = Vec::with_capacity(indices.len());
        let mut k: usize = 0;
        while k < indices.len()
            invariant
                indices@ == ix,
                forall|i: int| 0 <= i < ix.len() ==> ix[i] < 4096,
                0 <= k <= ix.len(),
                indices_u16@ =~= narrow(ix.take(k as int)),
            decreases ix.len() - k,
        {
            indices_u16.push(indices[k] as u16);
            k = k + 1;
        }
        proof {
            assert(ix.take(ix.len() as int) =~= ix);
        }
        Ok(IdiomMnemonic { indices: indices_u16 })
    }

    /// Parse a mnemonic from an idiom phrase (with checksum validation).
    ///
    /// Idioms are separated by spaces (full-width/half-width and tabs are
    /// supported).  Fails with `InvalidLength` for a word count other than
    /// 12/15/18/21/24, `InvalidIdiom` for the first word not in the list,
    /// and `ChecksumMismatch` when the checksum does not match.
    pub fn from_phrase(list: &ChineseIdiomList, phrase: &str) -> (res: Result<Self, Error>)
        ensures
            phrase_outcome(list.words(), phrase@, mnemonic_result(res)),
            res is Ok <==> phrase_is_valid(list.words(), phrase@),
    {
        proof {
            use_type_invariant(list);
            list.lemma_wf();
        }
        let toks = split_words(phrase);
        let ghost tv = str_views(toks@);
        let ghost words = list.words();
        let count = toks.len();
        if !validate_mnemonic_length(count) {
            return Err(Error::InvalidLength(count));
        }
        let mut indices: Vec<usize> = Vec::with_capacity(count);
        let mut j: usize = 0;
        assert(tv.skip(0) =~= tv);
        while j < count
            invariant
                count == toks@.len(),
                tv == str_views(toks@),
                tv == split_words_spec(phrase@),
                is_valid_word_count(count as int),
                words == list.words(),
                is_valid_wordlist(words),
                0 <= j <= count,
                first_unknown(words, tv) == first_unknown(words, tv.skip(j as int)),
                indices@ =~= lookup_all(words, tv.take(j as int)),
                forall|i: int| 0 <= i < j ==> indices@[i] < 4096,
            decreases count - j,
        {
            let tok: &str = toks[j];
            proof {
                assert(tv.skip(j as int)[0] == tok@);
                assert(tv.skip(j as int).drop_first() =~= tv.skip(j + 1));
            }
            match list.idiom_to_index(tok) {
                Some(idx) => {
                    indices.push(idx);
                    proof {
                        assert(tv.take(j + 1) =~= tv.take(j as int).push(tok@));
                    }
                },
                None => {
                    assert(first_unknown(words, tv.skip(j as int)) == Some(tok@));
                    return Err(Error::InvalidIdiom(String::from_str(tok)));
                },
            }
            j = j + 1;
        }
        proof {
            assert(tv.take(count as int) =~= tv);
            assert(tv.skip(count as int).len() == 0);
        }
        // The indices came from the list, so only the checksum is left to check.
        match indices_to_entropy_inner(indices.as_slice()) {
            Ok(_) => {},
            Err(e) => {
                return Err(e);
            },
        }
        let ghost ix = indices@;
        let mut indices_u16: Vec<u16> = Vec::with_capacity(count);
        let mut k: usize = 0;
        while k < count
            invariant
                indices@ == ix,
                count == ix.len(),
                forall|i: int| 0 <= i < ix.len() ==> ix[i] < 4096,
                0 <= k <= count,
                indices_u16@ =~= narrow(ix.take(k as int)),
            decreases count - k,
        {
            indices_u16.push(indices[k] as u16);
            k = k + 1;
        }
        proof {
            assert(ix.take(count as int) =~= ix);
            lemma_widen_narrow(ix);
            lemma_valid_mnemonic(indices_u16@);
        }
        Ok(IdiomMnemonic { indices: indices_u16 })
    }

    /// The indices widened to `usize`.
    fn widened(&self) -> (v: Vec<usize>)
        ensures
            v@ == widen(self@),
    {
        let mut v: Vec<usize> = Vec::with_capacity(self.indices.len());
        let mut k: usize = 0;
        while k < self.indices.len()
            invariant
                0 <= k <= self.indices@.len(),
                v@ =~= widen(self.indices@.take(k as int)),
            decreases self.indices@.len() - k,
        {
            v.push(self.indices[k] as usize);
            k = k + 1;
        }
        assert(self.indices@.take(self.indices@.len() as int) =~= self.indices@);
        v
    }

    /// Recover the entropy from this mnemonic.
    pub fn to_entropy(&self) -> (res: Result<Vec<u8>, Error>)
        ensures
            bytes_result(res) == indices_to_entropy_spec(widen(self@)),
            res matches Ok(v) ==> v@ == indices_entropy(widen(self@)),
            res is Ok,
    {
        proof {
            use_type_invariant(self);
            lemma_mnemonic_facts(self@);
        }
        let indices = self.widened();
        indices_to_entropy(indices.as_slice())
    }

    /// Derive a 64-byte seed from this mnemonic (BIP39-style), with the
    /// default 4096 PBKDF2-SHA512 iterations.  Both the mnemonic and the
    /// passphrase are NFKD-normalized.
    pub fn to_seed(&self, list: &ChineseIdiomList, passphrase: &str) -> (seed: [u8; 64])
        ensures
            seed@ == seed_spec(phrase_spec(list.words(), self@), passphrase@, 4096),
    {
        let phrase = self.phrase(list);
        mnemonic_to_seed(phrase.as_str(), passphrase)
    }

    /// Derive a 64-byte seed with a custom iteration count.
    pub fn to_seed_with_iterations(&self, list: &ChineseIdiomList, passphrase: &str, iterations: u32) -> (seed: [u8; 64])
        ensures
            seed@ == seed_spec(phrase_spec(list.words(), self@), passphrase@, iterations),
    {
        let phrase = self.phrase(list);
        mnemonic_to_seed_with_iterations(phrase.as_str(), passphrase, iterations)
    }

    /// Validate a mnemonic phrase.
    pub fn validate(list: &ChineseIdiomList, phrase: &str) -> (valid: bool)
        ensures
            valid == phrase_is_valid(list.words(), phrase@),
    {
        Self::from_phrase(list, phrase).is_ok()
    }

    /// Look up an idiom's index.
    pub fn idiom_to_index(list: &ChineseIdiomList, idiom: &str) -> (index: Option<usize>)
        ensures
            index == index_of_idiom(list.words(), idiom@),
    {
        list.idiom_to_index(idiom)
    }

    /// Look up an idiom by its index.
    pub fn index_to_idiom(list: &ChineseIdiomList, idx: usize) -> (idiom: Option<&str>)
        ensures
            idiom is Some <==> idx < 4096,
            idiom matches Some(s) ==> s@ == list.words()[idx as int],
    {
        list.index_to_idiom(idx)
    }

    /// Get all idioms as references into the wordlist.
    pub fn idioms<'a>(&self, list: &'a ChineseIdiomList) -> (idioms: Vec<&'a str>)
        ensures
            str_views(idioms@) == idiom_words(list.words(), self@),
    {
        proof {
            use_type_invariant(self);
            lemma_mnemonic_facts(self@);
        }
        let mut out: Vec<&'a str> = Vec::with_capacity(self.indices.len());
        let mut k: usize = 0;
        while k < self.indices.len()
            invariant
                is_valid_mnemonic(self.indices@),
                forall|i: int| 0 <= i < self.indices@.len() ==> self.indices@[i] < 4096,
                0 <= k <= self.indices@.len(),
                str_views(out@) =~= idiom_words(list.words(), self.indices@.take(k as int)),
            decreases self.indices@.len() - k,
        {
            let idiom = match list.index_to_idiom(self.indices[k] as usize) {
                Some(s) => s,
                None => {
                    proof {
                        assert(false);
                    }
                    ""
                },
            };
            let ghost before = out@;
            out.push(idiom);
            proof {
                let words = list.words();
                assert(self.indices@.take(k + 1) =~= self.indices@.take(k as int).push(self.indices@[k as int]));
                assert(idiom@ == words[self.indices@[k as int] as int]);
                assert(str_views(out@) =~= str_views(before).push(idiom@));
                assert(idiom_words(words, self.indices@.take(k + 1)) =~= idiom_words(words, self.indices@.take(k as int)).push(idiom@));
            }
            k = k + 1;
        }
        assert(self.indices@.take(self.indices@.len() as int) =~= self.indices@);
        out
    }

    /// Get the mnemonic phrase (space-separated idiom string).
    pub fn phrase(&self, list: &ChineseIdiomList) -> (phrase: String)
        ensures
            phrase@ == phrase_spec(list.words(), self@),
    {
        let idioms = self.idioms(list);
        let ghost ws = str_views(idioms@);
        let mut s = String::new();
        let mut k: usize = 0;
        while k < idioms.len()
            invariant
                ws == str_views(idioms@),
                0 <= k <= idioms@.len(),
                s@ == join_words(ws.take(k as int)),
            decreases idioms@.len() - k,
        {
            if k > 0 {
                s.append(" ");
                proof {
                    reveal_strlit(" ");
                }
            }
            s.append(idioms[k]);
            proof {
                if k > 0 {
                    crate::phrase::lemma_join_push(ws.take(k as int), ws[k as int]);
                    assert(ws.take(k + 1) =~= ws.take(k as int).push(ws[k as int]));
                } else {
                    assert(ws.take(1) =~= seq![ws[0]]);
                    assert(ws.take(0) =~= Seq::<Seq<char>>::empty());
                }
            }
            k = k + 1;
        }
        assert(ws.take(idioms@.len() as int) =~= ws);
        s
    }

    /// Get the raw index slice.  The indices of every mnemonic are a valid
    /// count of indices below 4096 whose checksum matches.
    pub fn raw_indices(&self) -> (indices: &[u16])
        ensures
            indices@ == self@,
            is_valid_mnemonic(indices@),
    {
        proof {
            use_type_invariant(self);
        }
        self.indices.as_slice()
    }
}

/// Round trip from entropy: valid entropy makes a mnemonic whose entropy
/// is the entropy it was made from.
pub proof fn law_entropy_mnemonic_roundtrip(entropy: Seq<u8>)
    requires
        is_valid_entropy_bits(8 * entropy.len() as int),
    ensures
        from_entropy_spec(entropy) matches Ok(s) && is_valid_mnemonic(s) && s.len() * 32 == 3 * (8
            * entropy.len()) && indices_to_entropy_spec(widen(s)) == Ok::<Seq<u8>, Error>(entropy),
{
    lemma_sizes(entropy.len() as int);
    lemma_encode_decode(entropy);
    let ix = entropy_to_indices_spec(entropy);
    lemma_widen_narrow(ix);
    lemma_valid_mnemonic(narrow(ix));
    lemma_mnemonic_facts(narrow(ix));
}

/// Round trip from a mnemonic: the mnemonic made from a mnemonic's entropy
/// is that mnemonic.
pub proof fn law_mnemonic_entropy_roundtrip(s: Seq<u16>)
    requires
        is_valid_mnemonic(s),
    ensures
        from_entropy_spec(indices_entropy(widen(s))) == Ok::<Seq<u16>, Error>(s),
{
    lemma_mnemonic_facts(s);
    crate::entropy_laws::law_indices_roundtrip(widen(s));
    assert(narrow(widen(s)) =~= s);
}

/// Round trip through the phrase: for a wordlist whose idioms hold no
/// separator, the phrase of a mnemonic is valid and parses back to the same
/// mnemonic.
pub proof fn law_phrase_roundtrip(list: ChineseIdiomList, s: Seq<u16>)
    requires
        list.wf(),
        plain_wordlist(list.words()),
        is_valid_mnemonic(s),
    ensures
        phrase_is_valid(list.words(), phrase_spec(list.words(), s)),
        phrase_indices(list.words(), phrase_spec(list.words(), s)) == s,
{
    list.lemma_wf();
    lemma_mnemonic_facts(s);
    let words = list.words();
    let ws = idiom_words(words, s);
    lemma_plain_idioms(words, s);
    crate::phrase::lemma_split_join(ws);
    lemma_all_known(words, s);
    assert forall|i: int| 0 <= i < s.len() implies #[trigger] lookup_all(words, ws)[i] == widen(s)[i] by {
        crate::idiom_list::law_index_roundtrip(words, s[i] as int, ws[i]);
    }
    assert(lookup_all(words, ws) =~= widen(s));
    assert(narrow(widen(s)) =~= s);
}

/// The idioms of a mnemonic in a wordlist without separators are plain,
/// non-empty words.
proof fn lemma_plain_idioms(words: Seq<Seq<char>>, s: Seq<u16>)
    requires
        is_valid_wordlist(words),
        plain_wordlist(words),
        forall|i: int| 0 <= i < s.len() ==> s[i] < 4096,
    ensures
        plain_words(idiom_words(words, s)),
{
    let ws = idiom_words(words, s);
    assert forall|i: int| 0 <= i < ws.len() implies #[trigger] ws[i].len() > 0 && is_plain_word(ws[i]) by {
        assert(crate::idiom_list::is_valid_idiom(words[s[i] as int]));
        assert(is_plain_word(words[s[i] as int]));
    }
}

/// Separators do not matter: for a wordlist whose idioms hold no separator,
/// the idioms of a mnemonic joined by any non-empty runs of half-width
/// spaces, full-width spaces and tabs, with any such runs before and after,
/// form a valid phrase that parses back to the same mnemonic.
pub proof fn law_phrase_separator_runs(
    list: ChineseIdiomList,
    s: Seq<u16>,
    seps: Seq<Seq<char>>,
    lead: Seq<char>,
    trail: Seq<char>,
)
    requires
        list.wf(),
        plain_wordlist(list.words()),
        is_valid_mnemonic(s),
        seps.len() + 1 >= s.len(),
        separator_runs(seps),
        is_separator_run(lead),
        is_separator_run(trail),
    ensures
        phrase_is_valid(list.words(), join_with(idiom_words(list.words(), s), seps, lead, trail)),
        phrase_indices(list.words(), join_with(idiom_words(list.words(), s), seps, lead, trail))
            == s,
{
    list.lemma_wf();
    lemma_mnemonic_facts(s);
    let words = list.words();
    let ws = idiom_words(words, s);
    lemma_plain_idioms(words, s);
    law_split_separator_runs(ws, seps, lead, trail);
    law_phrase_roundtrip(list, s);
}

/// Every idiom of a mnemonic is in the list.
proof fn lemma_all_known(words: Seq<Seq<char>>, s: Seq<u16>)
    requires
        is_valid_wordlist(words),
        forall|i: int| 0 <= i < s.len() ==> s[i] < 4096,
    ensures
        first_unknown(words, idiom_words(words, s)) is None,
    decreases s.len(),
{
    if s.len() > 0 {
        crate::idiom_list::law_index_roundtrip(words, s[0] as int, words[s[0] as int]);
        lemma_all_known(words, s.drop_first());
        assert(idiom_words(words, s).drop_first() =~= idiom_words(words, s.drop_first()));
    }
}

} // verus!
