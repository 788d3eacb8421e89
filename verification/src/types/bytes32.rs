use vstd::prelude::*;
use vstd::slice::slice_subrange;

verus! {

/// A 32-byte word, as the machine's stack holds them.
#[derive(Debug, Clone, Copy, Hash, Eq)]
pub struct Bytes32(pub [u8; 32]);

/// The word that holds `bytes` at its end (`right_padding`) or at its start, and zeros in the
/// rest. `bytes` has at most 32 items.
pub open spec fn padded(bytes: Seq<u8>, right_padding: bool) -> Seq<u8> {
    let zeros = Seq::new((32 - bytes.len()) as nat, |i: int| 0u8);
    if right_padding {
        zeros + bytes
    } else {
        bytes + zeros
    }
}

/// The index of the first non-zero byte of `word` at or after `from`, or the length of
/// `word` where there is none.
pub open spec fn first_nonzero_from(word: Seq<u8>, from: int) -> int
    decreases word.len() - from,
{
    if from >= word.len() || word[from] != 0 {
        from
    } else {
        first_nonzero_from(word, from + 1)
    }
}

/// The word whose bytes are `bytes`, a sequence of 32 items.
pub open spec fn word_of(bytes: Seq<u8>) -> Bytes32 {
    Bytes32(choose|a: [u8; 32]| a@ == bytes)
}

/// A word is the word of its bytes.
pub proof fn lemma_word_of(word: Bytes32)
    ensures
        word_of(word@) == word,
{
    let a = choose|a: [u8; 32]| a@ == word@;
    assert(word.0@ == word@);
    assert(a@ == word.0@);
    assert(a == word.0);
}

impl View for Bytes32 {
    type V = Seq<u8>;

    open spec fn view(&self) -> Seq<u8> {
        self.0@
    }
}

impl PartialEq for Bytes32 {
    fn eq(&self, other: &Self) -> (res: bool) {
        self.same(other)
    }
}

impl vstd::std_specs::cmp::PartialEqSpecImpl for Bytes32 {
    open spec fn obeys_eq_spec() -> bool {
        true
    }

    open spec fn eq_spec(&self, other: &Self) -> bool {
        self@ == other@
    }
}

impl Bytes32 {
    /// Tells whether two words hold the same bytes.
    pub fn same(&self, other: &Self) -> (res: bool)
        ensures
            res == (self@ == other@),
    {
        let mut i: usize = 0;
        while i < 32
            invariant
                i <= 32,
                forall|k: int| 0 <= k < i ==> self@[k] == other@[k],
            decreases 32 - i,
        {
            if self.0[i] != other.0[i] {
                return false;
            }
            i += 1;
        }
        assert(self@ =~= other@);
        true
    }

    /// Number of zero bytes before the first non-zero byte; 32 for the zero word.
    pub open spec fn spec_leading_zeros(&self) -> int {
        first_nonzero_from(self@, 0)
    }

    /// Whether every byte is zero.
    pub open spec fn spec_is_zero(&self) -> bool {
        forall|i: int| 0 <= i < 32 ==> self@[i] == 0
    }

    /// Builds a word from at most 32 bytes; longer input gives `None`.
    /// With `right_padding` the bytes end the word, else they start it.
    pub fn from_bytes(bytes: &[u8], right_padding: bool) -> (res: Option<Self>)
        ensures
            res.is_some() <==> bytes@.len() <= 32,
            res matches Some(word) ==> word@ == padded(bytes@, right_padding),
            res matches Some(word) ==> word == word_of(padded(bytes@, right_padding)),
    {
        if bytes.len() > 32 {
            return None;
        }
        let mut res = [0u8; 32];
        let start_index: usize = if right_padding {
            32 - bytes.len()
        } else {
            0
        };
        let mut i: usize = 0;
        while i < bytes.len()
            invariant
                i <= bytes@.len() <= 32,
                start_index == if right_padding {
                    32 - bytes@.len()
                } else {
                    0
                },
                forall|k: int|
                    0 <= k < 32 ==> res@[k] == if start_index <= k < start_index + i {
                        bytes@[k - start_index]
                    } else {
                        0u8
                    },
            decreases bytes@.len() - i,
        {
            res[start_index + i] = bytes[i];
            i += 1;
        }
        assert(res@ =~= padded(bytes@, right_padding));
        proof {
            lemma_word_of(Bytes32(res));
        }
        Some(Bytes32(res))
    }

    /// Counts the zero bytes that start the word.
    pub fn leading_zeros(&self) -> (res: usize)
        ensures
            res == self.spec_leading_zeros(),
            res <= 32,
            forall|i: int| 0 <= i < res ==> self@[i] == 0,
            res < 32 ==> self@[res as int] != 0,
    {
        let mut i: usize = 0;
        while i < 32 && self.0[i] == 0
            invariant
                i <= 32,
                forall|k: int| 0 <= k < i ==> self@[k] == 0,
                first_nonzero_from(self@, 0) == first_nonzero_from(self@, i as int),
            decreases 32 - i,
        {
            i += 1;
        }
        i
    }

    /// Tells whether the word is zero.
    pub fn is_zero(&self) -> (res: bool)
        ensures
            res == self.spec_is_zero(),
    {
        self.leading_zeros() == 32
    }

    /// The bytes from the first non-zero byte to the end: the shortest form of the
    /// number that the word holds. Empty for the zero word.
    pub fn right_content(&self) -> (res: &[u8])
        ensures
            res@ == self@.subrange(self.spec_leading_zeros(), 32),
    {
        let start = self.leading_zeros();
        slice_subrange(self.0.as_slice(), start, 32)
    }
}

/// The leading zeros of a word are at most 32, every byte before them is zero and the
/// byte after them, if there is one, is not.
pub proof fn lemma_leading_zeros(word: Bytes32)
    ensures
        0 <= word.spec_leading_zeros() <= 32,
        forall|i: int| 0 <= i < word.spec_leading_zeros() ==> word@[i] == 0,
        word.spec_leading_zeros() < 32 ==> word@[word.spec_leading_zeros()] != 0,
        word.spec_is_zero() <==> word.spec_leading_zeros() == 32,
{
    lemma_first_nonzero(word@, 0);
}

proof fn lemma_first_nonzero(word: Seq<u8>, from: int)
    requires
        0 <= from <= word.len(),
    ensures
        from <= first_nonzero_from(word, from) <= word.len(),
        forall|i: int| from <= i < first_nonzero_from(word, from) ==> word[i] == 0,
        first_nonzero_from(word, from) < word.len() ==> word[first_nonzero_from(word, from)] != 0,
    decreases word.len() - from,
{
    if from < word.len() && word[from] == 0 {
        lemma_first_nonzero(word, from + 1);
    }
}

} // verus!
