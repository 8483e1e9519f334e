//! What the integrity checks of a container found.
use vstd::prelude::*;
use vstd::slice::slice_subrange;

use crate::registry::vault;
use crate::sizes::GIB;
use crate::text::{chars_of, is_white, parse_number, same_text, trim_end};
use crate::text;

verus! {

/// The page size in a text; 4096 where it is no number.
pub open spec fn page_size_in(reported: Seq<char>) -> u64 {
    match text::number(reported, u64::MAX as nat) {
        Some(n) => n as u64,
        None => 4096,
    }
}

/// The page size that the database reports as text.
pub fn page_size_of(reported: &str) -> (r: u64)
    ensures
        r == (match text::number(reported@, u64::MAX as nat) {
            Some(n) => n as u64,
            None => 4096,
        }),
        r == page_size_in(reported@),
{
    let chars = chars_of(reported);
    match parse_number(chars.as_slice(), u64::MAX) {
        Some(n) => n,
        None => 4096,
    }
}

/// The last word of a text.
pub open spec fn last_word(s: Seq<char>) -> Seq<char> {
    let t = text::trimmed_end(s);
    t.skip(word_start(t, t.len() as int))
}

/// Where the word starts that ends at `end`.
pub open spec fn word_start(s: Seq<char>, end: int) -> int
    decreases end,
{
    if end <= 0 || text::white(s[end - 1]) {
        end
    } else {
        word_start(s, end - 1)
    }
}

/// The number of the page that a message is about: its last word.
pub open spec fn page_of(message: Seq<char>) -> Option<nat> {
    text::number(last_word(message), u64::MAX as nat)
}

/// SQLCipher before 4.17 reports every page from 4 GiB on as broken, though it
/// is not (a 32-bit offset runs over).
pub open spec fn misreported(message: Seq<char>, page_size: u64) -> bool {
    page_of(message) matches Some(p) && p > 4 * GIB as nat / page_size as nat
}

/// The messages that are to be believed.
pub open spec fn believed(messages: Seq<Seq<char>>, page_size: u64) -> Seq<Seq<char>>
    decreases messages.len(),
{
    if messages.len() == 0 {
        Seq::empty()
    } else {
        let rest = believed(messages.drop_last(), page_size);
        if misreported(messages.last(), page_size) {
            rest
        } else {
            rest.push(messages.last())
        }
    }
}

fn is_misreported(message: &String, page_size: u64) -> (r: bool)
    requires
        page_size > 0,
    ensures
        r == misreported(message@, page_size),
{
    let chars = chars_of(message.as_str());
    let t = trim_end(chars.as_slice());
    let n: usize = t.len();
    let mut i: usize = n;
    while i > 0 && !is_white(t[i - 1])
        invariant
            i <= n == t@.len(),
            word_start(t@, i as int) == word_start(t@, n as int),
        decreases i,
    {
        i -= 1;
    }
    let word = slice_subrange(t, i, n);
    assert(word@ =~= last_word(message@));
    let boundary: u64 = (4 * GIB) / page_size;
    match parse_number(word, u64::MAX) {
        Some(p) => p > boundary,
        None => false,
    }
}

/// What the two checks came to.
#[derive(Debug)]
pub struct CheckReport {
    /// The pages that are broken.
    pub problems: Vec<String>,
    /// How many pages past 4 GiB were reported wrongly.
    pub misreported: usize,
    /// Whether the structure of the database is sound, which takes every page
    /// to be decrypted and verified.
    pub structure_ok: bool,
}

impl CheckReport {
    /// Whether the container is intact.
    pub open spec fn intact(self) -> bool {
        self.problems@.len() == 0 && self.structure_ok
    }

    pub fn passed(&self) -> (r: bool)
        ensures
            r == self.intact(),
    {
        self.problems.len() == 0 && self.structure_ok
    }
}

/// What the messages of the two checks come to.
pub open spec fn weighs(
    r: CheckReport,
    messages: Seq<Seq<char>>,
    page_size: u64,
    structure: Seq<Seq<char>>,
) -> bool {
    &&& vault::texts_view(r.problems@) == believed(messages, page_size)
    &&& r.misreported == messages.len() - r.problems@.len()
    &&& r.structure_ok == (structure == seq!["ok"@])
}

/// Weighs the messages of the page check and the lines of the structure check,
/// which says nothing but `ok` where all is well.
pub fn weigh_check(messages: &Vec<String>, page_size: u64, structure: &Vec<String>) -> (r: CheckReport)
    requires
        page_size > 0,
    ensures
        vault::texts_view(r.problems@) == believed(vault::texts_view(messages@), page_size),
        r.misreported == messages@.len() - r.problems@.len(),
        r.structure_ok == (vault::texts_view(structure@) == seq!["ok"@]),
        weighs(r, vault::texts_view(messages@), page_size, vault::texts_view(structure@)),
{
    let ghost all = vault::texts_view(messages@);
    let mut problems: Vec<String> = Vec::new();
    let mut count: usize = 0;
    let n: usize = messages.len();
    let mut i: usize = 0;
    assert(all.take(0) =~= Seq::empty());
    assert(vault::texts_view(problems@) =~= Seq::empty());
    while i < n
        invariant
            i <= n == messages@.len(),
            page_size > 0,
            all == vault::texts_view(messages@),
            vault::texts_view(problems@) == believed(all.take(i as int), page_size),
            count == i - problems@.len(),
        decreases n - i,
    {
        assert(all.take(i + 1).drop_last() =~= all.take(i as int));
        assert(all.take(i + 1).last() == messages@[i as int]@);
        if is_misreported(&messages[i], page_size) {
            count += 1;
        } else {
            let ghost before = vault::texts_view(problems@);
            problems.push(messages[i].clone());
            assert(vault::texts_view(problems@) =~= before.push(messages@[i as int]@));
        }
        i += 1;
    }
    assert(all.take(n as int) =~= all);
    let structure_ok = structure.len() == 1 && same_text(structure[0].as_str(), "ok");
    proof {
        let view = vault::texts_view(structure@);
        if structure_ok {
            assert(view =~= seq!["ok"@]);
        } else {
            assert(view.len() == 1 ==> view[0] == structure@[0]@);
            assert(view.len() != 1 || view[0] != seq!["ok"@][0]);
        }
    }
    CheckReport { problems, misreported: count, structure_ok }
}

/// A problem within the first 4 GiB is never explained away.
pub proof fn early_problems_are_believed(messages: Seq<Seq<char>>, page_size: u64, i: int)
    requires
        0 <= i < messages.len(),
        !misreported(messages[i], page_size),
    ensures
        believed(messages, page_size).contains(messages[i]),
    decreases messages.len(),
{
    let front = messages.drop_last();
    let rest = believed(front, page_size);
    let all = believed(messages, page_size);
    if i == messages.len() - 1 {
        assert(all[rest.len() as int] == messages[i]);
    } else {
        early_problems_are_believed(front, page_size, i);
        let k = choose|k: int| 0 <= k < rest.len() && rest[k] == messages[i];
        assert(all[k] == messages[i]);
    }
}

/// Whether a message ends with this word: white space at most follows it, and
/// none is in it.
pub open spec fn ends_with_word(message: Seq<char>, from: int, to: int) -> bool {
    &&& 0 <= from < to <= message.len()
    &&& from == 0 || text::white(message[from - 1])
    &&& forall|i: int| from <= i < to ==> !text::white(#[trigger] message[i])
    &&& forall|i: int| to <= i < message.len() ==> text::white(#[trigger] message[i])
}

/// Whether a message is about a page past 4 GiB: its last word is a number, and
/// so many pages are more than 4294967296 bytes.
pub open spec fn about_late_page(message: Seq<char>, page_size: u64) -> bool {
    exists|from: int, to: int|
        #[trigger] ends_with_word(message, from, to) && {
            let page = text::number(message.subrange(from, to), u64::MAX as nat);
            page is Some && page->Some_0 * page_size > 4294967296
        }
}

proof fn lemma_word_start(s: Seq<char>, end: int)
    requires
        0 <= end <= s.len(),
    ensures
        0 <= word_start(s, end) <= end,
        word_start(s, end) == 0 || text::white(s[word_start(s, end) - 1]),
        forall|i: int| word_start(s, end) <= i < end ==> !text::white(#[trigger] s[i]),
    decreases end,
{
    if end > 0 && !text::white(s[end - 1]) {
        lemma_word_start(s, end - 1);
    }
}

/// A message is explained away exactly where it is about a page past 4 GiB.
proof fn lemma_misreported(message: Seq<char>, page_size: u64)
    requires
        page_size > 0,
    ensures
        misreported(message, page_size) <==> about_late_page(message, page_size),
{
    let t = text::trimmed_end(message);
    let n = t.len() as int;
    text::lemma_trimmed_end(message);
    lemma_word_start(t, n);
    let k = word_start(t, n);
    assert(t.skip(k) =~= message.subrange(k, n));
    if n > 0 {
        assert(t.last() == t[n - 1]);
        assert(k < n);
        assert(ends_with_word(message, k, n)) by {
            assert forall|i: int| k <= i < n implies !text::white(#[trigger] message[i]) by {
                assert(message[i] == t[i]);
            }
            if k > 0 {
                assert(message[k - 1] == t[k - 1]);
            }
        }
    }
    if let Some(p) = page_of(message) {
        let d = page_size as nat;
        assert(p > 4294967296nat / d <==> p * d > 4294967296) by (nonlinear_arith)
            requires
                d > 0,
        ;
    }
    if about_late_page(message, page_size) {
        let (from, to) = choose|from: int, to: int|
            #[trigger] ends_with_word(message, from, to) && {
                let page = text::number(message.subrange(from, to), u64::MAX as nat);
                page is Some && page->Some_0 * page_size > 4294967296
            };
        assert(!text::white(message[from]));
        assert(to == n) by {
            if to < n {
                assert(message[n - 1] == t[n - 1]);
                assert(text::white(message[n - 1]));
            } else if to > n {
                assert(!text::white(message[to - 1]));
                assert(text::white(message[to - 1]));
            }
        }
        assert(from == k) by {
            if from < k {
                assert(message[k - 1] == t[k - 1]);
            } else if from > k {
                assert(message[from - 1] == t[from - 1]);
            }
        }
    } else if n == 0 {
        assert(text::number(t.skip(k), u64::MAX as nat) is None);
    }
}

proof fn lemma_none_believed(messages: Seq<Seq<char>>, page_size: u64)
    requires
        forall|i: int| 0 <= i < messages.len() ==> misreported(#[trigger] messages[i], page_size),
    ensures
        believed(messages, page_size).len() == 0,
    decreases messages.len(),
{
    if messages.len() > 0 {
        let front = messages.drop_last();
        assert forall|i: int| 0 <= i < front.len() implies misreported(
            #[trigger] front[i],
            page_size,
        ) by {
            assert(front[i] == messages[i]);
        }
        lemma_none_believed(front, page_size);
        assert(misreported(messages[messages.len() - 1], page_size));
    }
}

/// The check passes exactly where every message of the page check is about a
/// page past 4 GiB and the structure check says `ok` and nothing else. One
/// message about an earlier page, or about none, makes it fail.
pub proof fn check_passes_only_if_intact(
    messages: Seq<Seq<char>>,
    page_size: u64,
    structure: Seq<Seq<char>>,
    report: CheckReport,
)
    requires
        page_size > 0,
        weighs(report, messages, page_size, structure),
    ensures
        report.misreported + report.problems@.len() == messages.len(),
        report.intact() <==> (forall|i: int|
            0 <= i < messages.len() ==> about_late_page(#[trigger] messages[i], page_size))
            && structure.len() == 1 && structure[0] == "ok"@,
{
    assert(report.problems@.len() == vault::texts_view(report.problems@).len());
    assert forall|i: int| 0 <= i < messages.len() implies (misreported(
        #[trigger] messages[i],
        page_size,
    ) <==> about_late_page(messages[i], page_size)) by {
        lemma_misreported(messages[i], page_size);
    }
    if forall|i: int|
        0 <= i < messages.len() ==> about_late_page(#[trigger] messages[i], page_size) {
        lemma_none_believed(messages, page_size);
    } else {
        let i = choose|i: int|
            0 <= i < messages.len() && !about_late_page(#[trigger] messages[i], page_size);
        early_problems_are_believed(messages, page_size, i);
    }
    if structure.len() == 1 && structure[0] == "ok"@ {
        assert(structure =~= seq!["ok"@]);
    }
}

/// Every problem that is reported is a message of the page check.
pub proof fn problems_are_messages(messages: Seq<Seq<char>>, page_size: u64, k: int)
    requires
        page_size > 0,
        0 <= k < believed(messages, page_size).len(),
    ensures
        messages.contains(believed(messages, page_size)[k]),
        !about_late_page(believed(messages, page_size)[k], page_size),
    decreases messages.len(),
{
    let front = messages.drop_last();
    let rest = believed(front, page_size);
    if k < rest.len() {
        problems_are_messages(front, page_size, k);
        let i = choose|i: int| 0 <= i < front.len() && front[i] == rest[k];
        assert(messages[i] == rest[k]);
    } else {
        assert(messages[messages.len() - 1] == believed(messages, page_size)[k]);
        lemma_misreported(messages.last(), page_size);
    }
}

/// The page size is the number that is reported.
pub proof fn page_size_is_reported(n: u64, reported: Seq<char>)
    ensures
        page_size_in(text::decimal(n as nat)) == n,
        text::number(reported, u64::MAX as nat) == Some(n as nat) ==> page_size_in(reported) == n,
        text::number(reported, u64::MAX as nat) is None ==> page_size_in(reported) == 4096,
{
    text::decimal_reads_back(n as nat, u64::MAX as nat);
}

} // verus!
