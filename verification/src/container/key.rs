//! The statements that carry a password.
use vstd::prelude::*;
use vstd::string::{StrSliceExecFns, StringExecFns};
use zeroize::Zeroizing;

verus! {

/// `String::with_capacity`: an empty text, with room for so many bytes. A text
/// that stays within its room is not moved about in memory, so no piece of it
/// is left behind unwiped.
pub assume_specification[ String::with_capacity ](capacity: usize) -> (s: String)
    requires
        capacity <= isize::MAX,
    ensures
        s@ == Seq::<char>::empty(),
;

/// A text that is wiped from memory when it is dropped: `zeroize`'s
/// `Zeroizing<String>`, which holds exactly one text.
#[verifier::external_body]
pub struct WipedText {
    held: Zeroizing<String>,
}

/// The text that is held.
pub uninterp spec fn wiped_text(w: WipedText) -> Seq<char>;

impl WipedText {
    /// `Zeroizing::new`: holds the text that it is given.
    #[verifier::external_body]
    fn hold(s: String) -> (w: WipedText)
        ensures
            wiped_text(w) == s@,
    {
        WipedText { held: Zeroizing::new(s) }
    }

    /// `Zeroizing`'s `Deref`: gives access to the text that it holds.
    #[verifier::external_body]
    fn access(&self) -> (s: &str)
        ensures
            s@ == wiped_text(*self),
    {
        self.held.as_str()
    }

    /// Takes a text over. It is not copied.
    pub fn new(s: String) -> (w: WipedText)
        ensures
            wiped_text(w) == s@,
    {
        WipedText::hold(s)
    }

    /// The first `n` characters of a text, copied into as much room as they
    /// take.
    pub fn first_of(s: &str, n: usize) -> (w: WipedText)
        requires
            n <= s@.len(),
        ensures
            wiped_text(w) == s@.take(n as int),
    {
        let part = s.substring_char(0, n);
        assert(part@ =~= s@.take(n as int));
        WipedText::hold(part.to_owned())
    }

    pub fn text(&self) -> (s: &str)
        ensures
            s@ == wiped_text(*self),
    {
        self.access()
    }
}

/// A text with every single quote doubled.
pub open spec fn quotes_doubled(s: Seq<char>) -> Seq<char>
    decreases s.len(),
{
    if s.len() == 0 {
        Seq::empty()
    } else if s.last() == '\'' {
        quotes_doubled(s.drop_last()).push('\'').push('\'')
    } else {
        quotes_doubled(s.drop_last()).push(s.last())
    }
}

/// The statement that gives a connection its key. A pragma takes no bound
/// parameter, so the password stands in it as a quoted text.
pub open spec fn key_statement(pragma: Seq<char>, value: Seq<char>) -> Seq<char> {
    "PRAGMA "@ + pragma + " = '"@ + quotes_doubled(value) + "'"@
}

pub fn pragma_key_sql(pragma: &str, value: &str) -> (sql: WipedText)
    ensures
        wiped_text(sql) == key_statement(pragma@, value@),
{
    // Every quote in the value may be doubled.
    let room: usize = pragma.len().saturating_add(value.len()).saturating_add(
        value.len(),
    ).saturating_add(12);
    let mut out = if room <= isize::MAX as usize {
        String::with_capacity(room)
    } else {
        String::new()
    };
    out.append("PRAGMA ");
    out.append(pragma);
    out.append(" = '");
    assert(out@ =~= "PRAGMA "@ + pragma@ + " = '"@);
    let ghost head = out@;
    assert(quotes_doubled(Seq::<char>::empty()) =~= Seq::empty());
    assert(value@.take(0) =~= Seq::empty());
    assert(head + quotes_doubled(value@.take(0)) =~= head);
    for c in it: value.chars()
        invariant
            it.seq() == value@,
            head == "PRAGMA "@ + pragma@ + " = '"@,
            out@ == head + quotes_doubled(value@.take(it.index() as int)),
    {
        let ghost i = it.index() as int;
        let ghost before = out@;
        assert(value@.take(i + 1).drop_last() =~= value@.take(i));
        assert(value@.take(i + 1).last() == c);
        if c == '\'' {
            out.push('\'');
        }
        out.push(c);
        assert(out@ =~= head + quotes_doubled(value@.take(i + 1)));
    }
    assert(value@.take(value@.len() as int) =~= value@);
    out.append("'");
    assert(out@ =~= key_statement(pragma@, value@));
    WipedText::hold(out)
}

/// What a quoted text of SQL means: two quotes stand for one. A lone quote
/// would end it.
pub open spec fn literal_value(s: Seq<char>) -> Option<Seq<char>>
    decreases s.len(),
{
    if s.len() == 0 {
        Some(Seq::empty())
    } else if s[0] != '\'' {
        match literal_value(s.skip(1)) {
            Some(rest) => Some(seq![s[0]] + rest),
            None => None,
        }
    } else if s.len() >= 2 && s[1] == '\'' {
        match literal_value(s.skip(2)) {
            Some(rest) => Some(seq!['\''] + rest),
            None => None,
        }
    } else {
        None
    }
}

proof fn lemma_doubled_front(c: char, rest: Seq<char>)
    ensures
        quotes_doubled(seq![c] + rest) == (if c == '\'' {
            seq!['\'', '\'']
        } else {
            seq![c]
        }) + quotes_doubled(rest),
    decreases rest.len(),
{
    let all = seq![c] + rest;
    if rest.len() == 0 {
        assert(all.drop_last() =~= Seq::empty());
        assert(all.last() == c);
        assert(quotes_doubled(Seq::<char>::empty()) == Seq::<char>::empty());
        assert(quotes_doubled(all) =~= (if c == '\'' {
            seq!['\'', '\'']
        } else {
            seq![c]
        }) + quotes_doubled(rest));
    } else {
        lemma_doubled_front(c, rest.drop_last());
        assert(all.drop_last() =~= seq![c] + rest.drop_last());
        assert(all.last() == rest.last());
        assert(quotes_doubled(all) =~= (if c == '\'' {
            seq!['\'', '\'']
        } else {
            seq![c]
        }) + quotes_doubled(rest));
    }
}

/// Whatever the password is, the statement sets that password: between its
/// quotes stands a text whose value is the password, and no quote in it ends
/// it early.
pub proof fn password_stays_whole(value: Seq<char>)
    ensures
        literal_value(quotes_doubled(value)) == Some(value),
    decreases value.len(),
{
    if value.len() == 0 {
        assert(quotes_doubled(value) =~= Seq::empty());
        assert(value =~= Seq::empty());
    } else {
        let c = value[0];
        let rest = value.skip(1);
        assert(seq![c] + rest =~= value);
        lemma_doubled_front(c, rest);
        password_stays_whole(rest);
        let d = quotes_doubled(value);
        if c == '\'' {
            assert(d[0] == '\'' && d[1] == '\'');
            assert(d.skip(2) =~= quotes_doubled(rest));
        } else {
            assert(d[0] == c);
            assert(d.skip(1) =~= quotes_doubled(rest));
        }
    }
}

/// The statement that gives a connection its key: what stands between its quotes
/// is a text whose value is the password.
pub proof fn statement_carries_password(password: Seq<char>) -> (quoted: Seq<char>)
    ensures
        key_statement("key"@, password) == "PRAGMA key = '"@ + quoted + "'"@,
        literal_value(quoted) == Some(password),
{
    reveal_strlit("key");
    reveal_strlit("PRAGMA ");
    reveal_strlit(" = '");
    reveal_strlit("PRAGMA key = '");
    assert("PRAGMA "@ + "key"@ + " = '"@ =~= "PRAGMA key = '"@);
    password_stays_whole(password);
    quotes_doubled(password)
}

} // verus!
