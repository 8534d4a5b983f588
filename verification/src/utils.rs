//! Fresh label names.

use vstd::prelude::*;
use crate::text::{append_decimal, decimal, ends_without_digit, lemma_trailing_number_of_decimal};

verus! {

/// A source of label names, each unlike the ones it gave before.
///
/// It counts the names it has given; the count returns to zero after
/// `u64::MAX`.
pub struct SymbolGenerator {
    next: u64,
}

impl View for SymbolGenerator {
    type V = u64;

    /// The number that the next name will carry.
    closed spec fn view(&self) -> u64 {
        self.next
    }
}

impl SymbolGenerator {
    /// A generator whose first name carries the number zero.
    pub fn new() -> (generator: Self)
        ensures
            generator@ == 0,
    {
        SymbolGenerator { next: 0 }
    }

    /// A generator whose first name carries the number `count`.
    pub fn starting_at(count: u64) -> (generator: Self)
        ensures
            generator@ == count,
    {
        SymbolGenerator { next: count }
    }
}

/// The name made of `prefix` and the number `count`: the prefix, and
/// directly behind it the number in decimal.
pub open spec fn label_text(prefix: Seq<char>, count: u64) -> Seq<char> {
    prefix + decimal(count as nat)
}

/// The count that is `steps` names after `count`, going round to zero after
/// `u64::MAX`.
pub open spec fn advance(count: u64, steps: nat) -> u64 {
    ((count + steps) % 0x1_0000_0000_0000_0000) as u64
}

/// Gives the name made of `prefix` and, directly behind it, the generator's
/// count in decimal, and moves the generator on by one.
///
/// The names that one generator gives for prefixes that do not end in a
/// digit differ from one another, until the count has gone round.
pub fn gensym(generator: &mut SymbolGenerator, prefix: &str) -> (label: String)
    ensures
        label@ == label_text(prefix@, old(generator)@),
        final(generator)@ == advance(old(generator)@, 1),
{
    let count = generator.next;
    generator.next = if count == u64::MAX {
        0
    } else {
        count + 1
    };
    let mut label = prefix.to_owned();
    append_decimal(&mut label, count);
    label
}

/// Two names made of prefixes that do not end in a digit are the same only
/// if they were made of the same prefix and the same count: names given at
/// different counts differ, whatever such prefixes they have.
///
/// Of a prefix that ends in a digit this does not hold: `a1` with the count
/// 2 and `a` with the count 12 both give `a12`.
pub proof fn lemma_label_text_injective(p1: Seq<char>, c1: u64, p2: Seq<char>, c2: u64)
    requires
        ends_without_digit(p1),
        ends_without_digit(p2),
        label_text(p1, c1) == label_text(p2, c2),
    ensures
        c1 == c2,
        p1 == p2,
{
    lemma_trailing_number_of_decimal(p1, c1 as nat);
    lemma_trailing_number_of_decimal(p2, c2 as nat);
    assert(label_text(p1, c1).len() == p1.len() + decimal(c1 as nat).len());
    assert(label_text(p2, c2).len() == p2.len() + decimal(c2 as nat).len());
    assert(p1.len() == p2.len());
    assert forall|i: int| 0 <= i < p1.len() implies p1[i] == p2[i] by {
        assert(label_text(p1, c1)[i] == p1[i]);
        assert(label_text(p2, c2)[i] == p2[i]);
    }
    assert(p1 =~= p2);
}

/// Moving on in two steps is moving on by their sum.
pub proof fn lemma_advance_twice(count: u64, a: nat, b: nat)
    ensures
        advance(advance(count, a), b) == advance(count, a + b),
{
    let m = 0x1_0000_0000_0000_0000int;
    vstd::arithmetic::div_mod::lemma_add_mod_noop(count + a, b as int, m);
    vstd::arithmetic::div_mod::lemma_mod_twice(count + a, m);
    vstd::arithmetic::div_mod::lemma_add_mod_noop((count + a) % m, b as int, m);
}

} // verus!
