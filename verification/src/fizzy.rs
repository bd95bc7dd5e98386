//! A fizz-buzz generaliser: an ordered list of substitution rules, each a
//! divisibility test paired with the word it substitutes. Applying the list
//! to a number concatenates the words of every rule that fires, and falls
//! back to the number's decimal rendering when none does.

use vstd::prelude::*;

verus! {

use crate::decimal::{dec_digits, u64_to_string};

/// One substitution criterion, held as data so that rule lists stay
/// inspectable.
pub enum MatchRule {
    DivisibleBy(u64),
}

/// Whether `rule` fires on `n`.
pub open spec fn rule_holds(rule: MatchRule, n: u64) -> bool {
    match rule {
        MatchRule::DivisibleBy(d) => n as int % d as int == 0,
    }
}

/// The rule's divisor is meaningful.
pub open spec fn rule_wf(rule: MatchRule) -> bool {
    match rule {
        MatchRule::DivisibleBy(d) => d != 0,
    }
}

/// A Matcher is a single rule of fizzbuzz: should a word be substituted in?
/// If yes, which word?
pub struct Matcher {
    rule: MatchRule,
    substitute: String,
}

impl Matcher {
    /// The criterion.
    pub closed spec fn rule_of(&self) -> MatchRule {
        self.rule
    }

    /// The word substituted in when the criterion fires.
    pub closed spec fn substitute_of(&self) -> Seq<char> {
        self.substitute@
    }

    pub open spec fn wf(&self) -> bool {
        rule_wf(self.rule_of())
    }

    pub fn new(rule: MatchRule, substitute: &str) -> (r: Matcher)
        requires
            rule_wf(rule),
        ensures
            r.rule_of() == rule,
            r.substitute_of() == substitute@,
            r.wf(),
    {
        Matcher { rule, substitute: String::from_str(substitute) }
    }
}

/// A Fizzy is an ordered set of matchers, which may be applied to a list of
/// numbers.
pub struct Fizzy {
    matchers: Vec<Matcher>,
}

/// The words of the rules that fire on `n`, concatenated in rule order, or
/// nothing when no rule fires.
pub open spec fn spec_run_matchers(matchers: Seq<Matcher>, n: u64) -> Option<Seq<char>>
    decreases matchers.len(),
{
    if matchers.len() == 0 {
        None
    } else {
        let prev = spec_run_matchers(matchers.drop_last(), n);
        if rule_holds(matchers.last().rule_of(), n) {
            match prev {
                None => Some(matchers.last().substitute_of()),
                Some(acc) => Some(acc + matchers.last().substitute_of()),
            }
        } else {
            prev
        }
    }
}

/// The line produced for `n`: the concatenated words, or the decimal
/// rendering of `n` when no rule fires.
pub open spec fn spec_apply_one(matchers: Seq<Matcher>, n: u64) -> Seq<char> {
    match spec_run_matchers(matchers, n) {
        None => dec_digits(n as nat),
        Some(v) => v,
    }
}

impl Fizzy {
    /// The rules, in the order they were added.
    pub closed spec fn matchers_of(&self) -> Seq<Matcher> {
        self.matchers@
    }

    pub open spec fn wf(&self) -> bool {
        forall|i: int| 0 <= i < self.matchers_of().len() ==> (#[trigger] self.matchers_of()[i]).wf()
    }

    /// Whether `element` is divisible by `number`.
    pub fn is_divisible_by(element: &u64, number: u8) -> (r: bool)
        requires
            number != 0,
        ensures
            r == (*element as int % number as int == 0),
    {
        let result = *element % (number as u64);
        result == 0
    }

    fn run_matchers(matchers: &Vec<Matcher>, element: u64) -> (r: Option<String>)
        requires
            forall|i: int| 0 <= i < matchers@.len() ==> (#[trigger] matchers@[i]).wf(),
        ensures
            r matches Some(s) ==> spec_run_matchers(matchers@, element) == Some(s@),
            r is None ==> spec_run_matchers(matchers@, element) is None,
    {
        let n = matchers.len();
        let mut acc: Option<String> = None;
        let mut i: usize = 0;
        while i < n
            invariant
                n == matchers@.len(),
                i <= n,
                forall|j: int| 0 <= j < matchers@.len() ==> (#[trigger] matchers@[j]).wf(),
                acc matches Some(s) ==> spec_run_matchers(matchers@.subrange(0, i as int), element)
                    == Some(s@),
                acc is None ==> spec_run_matchers(matchers@.subrange(0, i as int), element)
                    is None,
            decreases n - i,
        {
            proof {
                assert(matchers@.subrange(0, i + 1).drop_last() =~= matchers@.subrange(0, i as int));
                assert(matchers@.subrange(0, i + 1).last() == matchers@[i as int]);
            }
            let m = &matchers[i];
            let fires = match m.rule {
                MatchRule::DivisibleBy(d) => element % d == 0,
            };
            proof {
                assert(fires == rule_holds(m.rule_of(), element));
            }
            if fires {
                acc = match acc {
                    Some(acc_val) => Some(acc_val.concat(m.substitute.as_str())),
                    None => Some(m.substitute.clone()),
                };
            }
            i += 1;
        }
        proof {
            assert(matchers@.subrange(0, n as int) =~= matchers@);
        }
        acc
    }

    pub fn new() -> (r: Self)
        ensures
            r.matchers_of() == Seq::<Matcher>::empty(),
            r.wf(),
    {
        Fizzy { matchers: Vec::new() }
    }

    pub fn add_matcher(self, matcher: Matcher) -> (r: Self)
        ensures
            r.matchers_of() == self.matchers_of().push(matcher),
    {
        let mut matchers = self.matchers;
        matchers.push(matcher);
        Fizzy { matchers }
    }

    /// Map this fizzy onto every element of a list, returning one line per
    /// element.
    pub fn apply(&self, items: &Vec<u64>) -> (r: Vec<String>)
        requires
            self.wf(),
        ensures
            r.deep_view() == Seq::new(
                items@.len(),
                |i: int| spec_apply_one(self.matchers_of(), items@[i]),
            ),
    {
        let n = items.len();
        let mut r: Vec<String> = Vec::new();
        let mut i: usize = 0;
        while i < n
            invariant
                n == items@.len(),
                i <= n,
                self.wf(),
                r@.len() == i,
                forall|j: int|
                    0 <= j < i ==> (#[trigger] r@[j])@ == spec_apply_one(
                        self.matchers_of(),
                        items@[j],
                    ),
            decreases n - i,
        {
            proof {
                assert forall|j: int| 0 <= j < self.matchers@.len() implies (#[trigger] self.matchers@[j]).wf() by {
                    assert(self.matchers_of()[j].wf());
                }
            }
            let line = match Fizzy::run_matchers(&self.matchers, items[i]) {
                None => u64_to_string(items[i]),
                Some(val) => val,
            };
            r.push(line);
            i += 1;
        }
        proof {
            assert(r.deep_view() =~~= Seq::new(
                items@.len(),
                |i: int| spec_apply_one(self.matchers_of(), items@[i]),
            ));
        }
        r
    }
}

/// Convenience function: return a Fizzy which applies the standard fizz-buzz
/// rules.
pub fn fizz_buzz() -> (r: Fizzy)
    ensures
        r.wf(),
        r.matchers_of().len() == 2,
        r.matchers_of()[0].rule_of() == MatchRule::DivisibleBy(3u64),
        r.matchers_of()[0].substitute_of() == "fizz"@,
        r.matchers_of()[1].rule_of() == MatchRule::DivisibleBy(5u64),
        r.matchers_of()[1].substitute_of() == "buzz"@,
{
    Fizzy::new().add_matcher(Matcher::new(MatchRule::DivisibleBy(3), "fizz")).add_matcher(
        Matcher::new(MatchRule::DivisibleBy(5), "buzz"),
    )
}

} // verus!
