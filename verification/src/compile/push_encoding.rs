use vstd::prelude::*;
use crate::compile::compile::{constant_push_bytes, last_assumed, substitute};
use crate::pre_processing::attribute::{Assumption, AttributesView};
use crate::pre_processing::opcode::{spec_is_assumable_opcode, PUSH0, PUSH1};
use crate::types::bytes32::{lemma_leading_zeros, Bytes32};

verus! {

/// Whether the value of each opcode that is assumed can be assumed.
pub open spec fn assumable_only(assumes: Seq<Assumption>) -> bool {
    forall|i: int| 0 <= i < assumes.len() ==> spec_is_assumable_opcode(#[trigger] assumes[i].op)
}

/// The bytes of a push of a word that no opcode stands for: the opcode of the push of
/// that many bytes, and the bytes of the word from its first non-zero byte on; for zero,
/// `PUSH0`, or `PUSH1` and a zero byte where the machine has no `PUSH0`.
pub open spec fn plain_push_bytes(word: Bytes32, push0: bool) -> Seq<u8> {
    if word.spec_is_zero() {
        if push0 {
            seq![PUSH0]
        } else {
            seq![PUSH1, 0u8]
        }
    } else {
        let tail = word@.subrange(word.spec_leading_zeros(), 32);
        seq![(PUSH0 + tail.len()) as u8] + tail
    }
}

proof fn lemma_last_assumed(assumes: Seq<Assumption>, word: Bytes32, upto: int)
    requires
        0 <= upto <= assumes.len(),
    ensures
        last_assumed(assumes, word, upto) matches Some(op) ==> exists|i: int|
            0 <= i < upto && assumes[i].v@ == word@ && #[trigger] assumes[i].op == op,
        last_assumed(assumes, word, upto).is_none() ==> forall|i: int|
            0 <= i < upto ==> (#[trigger] assumes[i]).v@ != word@,
    decreases upto,
{
    if upto > 0 && assumes[upto - 1].v@ != word@ {
        lemma_last_assumed(assumes, word, upto - 1);
    }
}

/// The opcode that stands for a push of a word is one that is assumed to give the word;
/// there is one exactly where replacing is allowed and some opcode is assumed to give
/// the word.
pub proof fn lemma_substitute(attributes: AttributesView, word: Bytes32)
    ensures
        substitute(attributes, word) matches Some(op) ==> attributes.optimization && exists|
            i: int,
        |
            0 <= i < attributes.assumes.len() && attributes.assumes[i].v@ == word@
                && #[trigger] attributes.assumes[i].op == op,
        substitute(attributes, word).is_none() <==> !attributes.optimization || forall|i: int|
            0 <= i < attributes.assumes.len() ==> (#[trigger] attributes.assumes[i]).v@ != word@,
{
    lemma_last_assumed(attributes.assumes, word, attributes.assumes.len() as int);
}

/// Where the machine has `PUSH0`, a push of zero is the one byte `PUSH0`, and never
/// `PUSH1` with a zero byte. Where it has none, a push of zero never starts with `PUSH0`:
/// it is `PUSH1` with a zero byte, or the opcode that stands for it.
pub proof fn lemma_zero_push(attributes: AttributesView, word: Bytes32, push0: bool)
    requires
        word.spec_is_zero(),
        assumable_only(attributes.assumes),
    ensures
        push0 ==> constant_push_bytes(attributes, word, push0) == seq![PUSH0],
        push0 ==> constant_push_bytes(attributes, word, push0) != seq![PUSH1, 0u8],
        !push0 ==> constant_push_bytes(attributes, word, push0)[0] != PUSH0,
        !push0 && substitute(attributes, word).is_none() ==> constant_push_bytes(
            attributes,
            word,
            push0,
        ) == seq![PUSH1, 0u8],
{
    lemma_substitute(attributes, word);
    if push0 {
        assert(seq![PUSH0].len() == 1);
        assert(seq![PUSH1, 0u8].len() == 2);
    }
}

/// Where replacing is allowed and an opcode is assumed to give the word, a push of the
/// word is one byte: an opcode that is assumed to give it. (Zero is the exception where
/// the machine has `PUSH0`, which is as short.) Where replacing is not allowed, or no
/// opcode is assumed to give the word, the push has its plain form.
pub proof fn lemma_assume_substitution(attributes: AttributesView, word: Bytes32, push0: bool)
    ensures
        !(push0 && word.spec_is_zero()) && attributes.optimization && (exists|i: int|
            0 <= i < attributes.assumes.len() && (#[trigger] attributes.assumes[i]).v@ == word@)
            ==> exists|i: int|
            0 <= i < attributes.assumes.len() && (#[trigger] attributes.assumes[i]).v@ == word@
                && constant_push_bytes(attributes, word, push0) == seq![attributes.assumes[i].op],
        !attributes.optimization ==> constant_push_bytes(attributes, word, push0)
            == plain_push_bytes(word, push0),
        (forall|i: int|
            0 <= i < attributes.assumes.len() ==> (#[trigger] attributes.assumes[i]).v@ != word@)
            ==> constant_push_bytes(attributes, word, push0) == plain_push_bytes(word, push0),
{
    lemma_substitute(attributes, word);
    if !(push0 && word.spec_is_zero()) && attributes.optimization && (exists|i: int|
        0 <= i < attributes.assumes.len() && (#[trigger] attributes.assumes[i]).v@ == word@) {
        let op = substitute(attributes, word).unwrap();
        let i = choose|i: int|
            0 <= i < attributes.assumes.len() && attributes.assumes[i].v@ == word@
                && #[trigger] attributes.assumes[i].op == op;
        assert(constant_push_bytes(attributes, word, push0) == seq![attributes.assumes[i].op]);
    }
}

/// The plain form of a push of a word that is not zero has one byte for the opcode and
/// as many as the word has from its first non-zero byte on, 32 at most; the opcode
/// tells their number.
pub proof fn lemma_plain_push_width(word: Bytes32, push0: bool)
    requires
        !word.spec_is_zero(),
    ensures
        plain_push_bytes(word, push0).len() == 33 - word.spec_leading_zeros(),
        2 <= plain_push_bytes(word, push0).len() <= 33,
        plain_push_bytes(word, push0)[0] == PUSH0 + (32 - word.spec_leading_zeros()),
        plain_push_bytes(word, push0)[1] != 0,
{
    lemma_leading_zeros(word);
}

} // verus!
