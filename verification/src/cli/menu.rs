//! Choosing one of several vaults.
use vstd::prelude::*;

use crate::paths;
use crate::registry::config;
use crate::registry::vault::{Vault, VaultView};
use crate::text::{chars_of, is_text, parse_number, trim};
use crate::text;

verus! {

/// Whether somebody has to be asked.
#[derive(Clone, Copy, Debug, PartialEq, Eq, Structural)]
pub enum Pick {
    /// There is only one.
    Only,
    Ask,
    /// There are several, and no terminal to ask on.
    NoTerminal,
}

pub open spec fn picked(candidates: nat, terminal: bool) -> Pick {
    if candidates == 1 {
        Pick::Only
    } else if terminal {
        Pick::Ask
    } else {
        Pick::NoTerminal
    }
}

/// One candidate needs no asking; with several it takes a terminal.
pub fn pick_vault(candidates: usize, terminal: bool) -> (r: Pick)
    ensures
        r == (if candidates == 1 {
            Pick::Only
        } else if terminal {
            Pick::Ask
        } else {
            Pick::NoTerminal
        }),
        r == picked(candidates as nat, terminal),
{
    if candidates == 1 {
        Pick::Only
    } else if terminal {
        Pick::Ask
    } else {
        Pick::NoTerminal
    }
}

/// What an answer to the menu means.
#[derive(Clone, Copy, Debug, PartialEq, Eq, Structural)]
pub enum Choice {
    /// Nothing, or `q`.
    Abort,
    /// The vault at this place.
    Take(usize),
    /// Neither a number of the menu nor an alias: ask again.
    Again,
}

/// The place of the first vault of an alias at or after `from`, or how many
/// there are.
pub open spec fn alias_place(vaults: Seq<VaultView>, alias: Seq<char>, from: int) -> int
    decreases vaults.len() - from,
{
    if from >= vaults.len() {
        vaults.len() as int
    } else if vaults[from].alias == alias {
        from
    } else {
        alias_place(vaults, alias, from + 1)
    }
}

/// A number counts from 1 and comes before an alias of the same spelling.
pub open spec fn choice_of(vaults: Seq<VaultView>, line: Seq<char>) -> Choice {
    let answer = text::trimmed(line);
    let number = text::number(answer, usize::MAX as nat);
    let place = alias_place(vaults, answer, 0);
    if answer.len() == 0 || answer == "q"@ {
        Choice::Abort
    } else if number is Some && 1 <= number->Some_0 <= vaults.len() {
        Choice::Take((number->Some_0 - 1) as usize)
    } else if place < vaults.len() {
        Choice::Take(place as usize)
    } else {
        Choice::Again
    }
}

/// What an answer means, or the end of the input.
pub open spec fn answered(vaults: Seq<VaultView>, line: Option<Seq<char>>) -> Choice {
    match line {
        Some(l) => choice_of(vaults, l),
        None => Choice::Abort,
    }
}

/// What was answered. `None` stands for the end of the input.
pub fn read_choice(candidates: &Vec<Vault>, line: Option<&str>) -> (r: Choice)
    ensures
        r == (match line {
            Some(l) => choice_of(config::vault_views(candidates@), l@),
            None => Choice::Abort,
        }),
        r == answered(config::vault_views(candidates@), paths::opt_view(line)),
        r matches Choice::Take(i) ==> i < candidates@.len(),
{
    let l = match line {
        Some(l) => l,
        None => {
            return Choice::Abort;
        },
    };
    let ghost vaults = config::vault_views(candidates@);
    let chars = chars_of(l);
    let answer = trim(chars.as_slice());
    if answer.len() == 0 || is_text(answer, "q") {
        return Choice::Abort;
    }
    let count: usize = candidates.len();
    if let Some(n) = parse_number(answer, usize::MAX as u64) {
        if 1 <= n && n <= count as u64 {
            return Choice::Take((n - 1) as usize);
        }
    }
    let mut i: usize = 0;
    while i < count
        invariant
            i <= count == candidates@.len(),
            vaults == config::vault_views(candidates@),
            alias_place(vaults, answer@, i as int) == alias_place(vaults, answer@, 0),
            answer@ == text::trimmed(l@),
            answer@.len() > 0,
            answer@ != "q"@,
            line == Some(l),
            ({
                let number = text::number(answer@, usize::MAX as nat);
                !(number is Some && 1 <= number->Some_0 <= vaults.len())
            }),
        decreases count - i,
    {
        if is_text(answer, candidates[i].alias.as_str()) {
            return Choice::Take(i);
        }
        i += 1;
    }
    Choice::Again
}

proof fn lemma_alias_place(vaults: Seq<VaultView>, alias: Seq<char>, from: int, i: int)
    requires
        0 <= from <= i <= vaults.len(),
        forall|k: int| from <= k < i ==> (#[trigger] vaults[k]).alias != alias,
        i < vaults.len() ==> vaults[i].alias == alias,
    ensures
        alias_place(vaults, alias, from) == i,
    decreases i - from,
{
    if from < i {
        lemma_alias_place(vaults, alias, from + 1, i);
    }
}

/// The number of a row takes that row: numbers count from 1. White space around
/// an answer does not matter.
pub proof fn numbers_take_rows(vaults: Seq<VaultView>, line: Seq<char>, n: nat)
    requires
        vaults.len() <= usize::MAX,
        1 <= n <= vaults.len(),
        text::number(text::trimmed(line), usize::MAX as nat) == Some(n),
    ensures
        answered(vaults, Some(line)) matches Choice::Take(i) && i == n - 1,
{
    reveal_strlit("q");
    let answer = text::trimmed(line);
    if answer == "q"@ {
        assert(!text::digit(answer[0]));
    }
}

/// An alias takes the first vault that has it, unless it is the number of a row
/// or `q`.
pub proof fn aliases_take_vaults(vaults: Seq<VaultView>, line: Seq<char>, i: int)
    requires
        vaults.len() <= usize::MAX,
        0 <= i < vaults.len(),
        text::trimmed(line) == vaults[i].alias,
        vaults[i].alias.len() > 0,
        vaults[i].alias != "q"@,
        forall|k: int| 0 <= k < i ==> (#[trigger] vaults[k]).alias != vaults[i].alias,
        text::number(vaults[i].alias, usize::MAX as nat) matches Some(n) ==> n == 0 || n
            > vaults.len(),
    ensures
        answered(vaults, Some(line)) matches Choice::Take(k) && k == i,
{
    lemma_alias_place(vaults, vaults[i].alias, 0, i);
}

/// Nothing, or `q`, ends the menu; what is neither a row nor an alias is asked
/// for again.
pub proof fn other_answers(vaults: Seq<VaultView>, line: Seq<char>)
    ensures
        answered(vaults, None) is Abort,
        text::trimmed(line).len() == 0 ==> answered(vaults, Some(line)) is Abort,
        text::trimmed(line) == "q"@ ==> answered(vaults, Some(line)) is Abort,
        text::trimmed(line).len() > 0 && text::trimmed(line) != "q"@ && (forall|k: int|
            0 <= k < vaults.len() ==> (#[trigger] vaults[k]).alias != text::trimmed(line)) && (
        text::number(text::trimmed(line), usize::MAX as nat) matches Some(n) ==> n == 0 || n
            > vaults.len()) ==> answered(vaults, Some(line)) is Again,
{
    if forall|k: int|
        0 <= k < vaults.len() ==> (#[trigger] vaults[k]).alias != text::trimmed(line) {
        lemma_alias_place(vaults, text::trimmed(line), 0, vaults.len() as int);
    }
}

/// One vault is taken without asking. With more, or none, somebody is asked
/// where there is a terminal to ask on.
pub proof fn only_one_is_not_asked(candidates: nat, terminal: bool)
    ensures
        candidates == 1 <==> picked(candidates, terminal) is Only,
        candidates != 1 && terminal <==> picked(candidates, terminal) is Ask,
        candidates != 1 && !terminal <==> picked(candidates, terminal) is NoTerminal,
{
}

} // verus!
