//! What the ADB commands read of an `adb` run, and the rules they share for
//! judging its output and sorting targets by outcome.

use vstd::prelude::*;

use crate::text::{
    concat_text, contains_seq, contains_text, lemma_prefix_ends, lemma_prefix_step, lowercase_of,
    prefix_of, texts, to_lowercase_text,
};

verus! {

/// The output of an `adb` run that succeeded.
pub struct AdbOutput {
    pub stdout: String,
    pub stderr: String,
}

/// The two output streams of a run, one after the other.
pub open spec fn combined(out: AdbOutput) -> Seq<char> {
    out.stdout@ + out.stderr@
}

/// The two output streams of a run, one after the other.
pub fn combined_output(out: &AdbOutput) -> (s: String)
    ensures
        s@ == combined(*out),
{
    concat_text(out.stdout.as_str(), out.stderr.as_str())
}

/// `word` occurs in the lowercase form of `text`.
pub open spec fn says(text: Seq<char>, word: Seq<char>) -> bool {
    contains_seq(lowercase_of(text), word)
}

/// Whether `word` occurs in the lowercase form of `text`.
pub fn text_says(text: &str, word: &str) -> (b: bool)
    ensures
        b == says(text@, word@),
{
    let lower = to_lowercase_text(text);
    contains_text(lower.as_str(), word)
}

/// The items whose outcome is `want`, in order.
pub open spec fn kept(items: Seq<Seq<char>>, outcomes: Seq<bool>, want: bool) -> Seq<Seq<char>>
    decreases items.len(),
{
    if items.len() == 0 || outcomes.len() == 0 {
        Seq::empty()
    } else {
        let rest = kept(items.drop_last(), outcomes.drop_last(), want);
        if outcomes.last() == want {
            rest.push(items.last())
        } else {
            rest
        }
    }
}

/// Sorts items by their outcome: those that succeeded, then those that did
/// not, each in the original order.
pub fn partition_by_outcome(items: &Vec<String>, outcomes: &Vec<bool>) -> (r: (
    Vec<String>,
    Vec<String>,
))
    requires
        items.len() == outcomes.len(),
    ensures
        texts(r.0@) == kept(texts(items@), outcomes@, true),
        texts(r.1@) == kept(texts(items@), outcomes@, false),
{
    let mut yes: Vec<String> = Vec::new();
    let mut no: Vec<String> = Vec::new();
    let n = items.len();
    let mut i: usize = 0;
    proof {
        lemma_prefix_ends(items@, i);
        lemma_prefix_ends(outcomes@, i);
    }
    while i < n
        invariant
            i <= n,
            n == items.len(),
            n == outcomes.len(),
            texts(yes@) == kept(texts(prefix_of(items@, i)), prefix_of(outcomes@, i), true),
            texts(no@) == kept(texts(prefix_of(items@, i)), prefix_of(outcomes@, i), false),
        decreases n - i,
    {
        let j = i + 1;
        proof {
            lemma_prefix_step(items@, i, j);
            lemma_prefix_step(outcomes@, i, j);
            assert(texts(prefix_of(items@, j)).drop_last() =~= texts(prefix_of(items@, i)));
        }
        let item = items[i].clone();
        let ghost before_yes = yes@;
        let ghost before_no = no@;
        if outcomes[i] {
            yes.push(item);
            assert(texts(yes@) =~= texts(before_yes).push(item@));
        } else {
            no.push(item);
            assert(texts(no@) =~= texts(before_no).push(item@));
        }
        i = j;
    }
    proof {
        lemma_prefix_ends(items@, i);
        lemma_prefix_ends(outcomes@, i);
    }
    (yes, no)
}

/// Sorting by outcome loses no item and invents none: the two lists
/// together are as long as the input, and each lists exactly the items
/// of its outcome.
pub proof fn law_partition_keeps_every_item(items: Seq<Seq<char>>, outcomes: Seq<bool>)
    requires
        items.len() == outcomes.len(),
    ensures
        kept(items, outcomes, true).len() + kept(items, outcomes, false).len() == items.len(),
        kept(items, outcomes, true).len() == outcomes.filter(|o: bool| o).len(),
    decreases items.len(),
{
    reveal_with_fuel(Seq::filter, 1);
    if items.len() > 0 {
        law_partition_keeps_every_item(items.drop_last(), outcomes.drop_last());
    }
}

} // verus!
