//! The rewriting that a chat proxy does to the lines that pass through it:
//! every word that looks like a Boguscoin address is replaced with one fixed
//! address.
//!
//! Whether a character is a letter or a digit is asked of the standard
//! library, character by character. Everything else is decided here, by
//! functions that take those answers as an argument.

use vstd::prelude::*;
use vstd::slice::slice_subrange;
use vstd::string::{StrSliceExecFns, StringExecFns};
use vstd::utf8::encode_utf8;
use crate::text::joined_with;

verus! {

/// The address that takes the place of every other.
pub const TONY_BOGUSCOIN_ADDRESS: &'static str = "7YWHMfk9JZe0LM0g1ZauHuiSxhI";

/// Whether a character is a letter or a digit of any script, as the Unicode
/// tables of the standard library have it.
pub uninterp spec fn unicode_alphanumeric(c: char) -> bool;

/// `char::is_alphanumeric` of the standard library. Its answer depends on the
/// character alone, and is what `unicode_alphanumeric` stands for.
#[verifier::external_body]
fn char_is_alphanumeric(c: char) -> (alphanumeric: bool)
    ensures
        alphanumeric == unicode_alphanumeric(c),
{
    c.is_alphanumeric()
}

/// For each character of a text, whether it is a letter or a digit.
pub open spec fn alphanumeric_flags(text: Seq<char>) -> Seq<bool> {
    text.map_values(|c: char| unicode_alphanumeric(c))
}

/// True for the ASCII whitespace characters: space, tab, line feed, form feed
/// and carriage return.
pub open spec fn is_space(c: char) -> bool {
    c == ' ' || c == '\t' || c == '\n' || c == '\x0c' || c == '\r'
}

/// True for a word that looks like a Boguscoin address: it starts with `7`,
/// takes 26 to 35 bytes, and holds letters and digits only. Which of its
/// characters are letters or digits is given.
pub open spec fn is_address_given(word: Seq<char>, alphanumeric: Seq<bool>) -> bool
    recommends
        alphanumeric.len() == word.len(),
{
    &&& word.len() > 0
    &&& word[0] == '7'
    &&& 26 <= encode_utf8(word).len() <= 35
    &&& forall|i: int| 0 <= i < word.len() ==> #[trigger] alphanumeric[i]
}

/// True for a word that looks like a Boguscoin address.
pub open spec fn is_address(word: Seq<char>) -> bool {
    is_address_given(word, alphanumeric_flags(word))
}

/// The words of a text read so far, each by the places where it starts and
/// ends, and the place where the word that is being read starts.
pub struct Scan {
    pub done: Seq<(int, int)>,
    pub start: int,
}

/// Reads a text character by character: whitespace ends the word that is
/// being read, if there is one, and the next word starts behind it.
pub open spec fn scan(text: Seq<char>) -> Scan
    decreases text.len(),
{
    if text.len() == 0 {
        Scan { done: Seq::empty(), start: 0 }
    } else {
        let before = scan(text.drop_last());
        if !is_space(text.last()) {
            before
        } else if before.start < text.len() - 1 {
            Scan { done: before.done.push((before.start, text.len() - 1)), start: text.len() as int }
        } else {
            Scan { done: before.done, start: text.len() as int }
        }
    }
}

/// The words of a text: its longest runs of characters without whitespace,
/// each by the places where it starts and ends.
pub open spec fn words(text: Seq<char>) -> Seq<(int, int)> {
    let end = scan(text);
    if end.start < text.len() {
        end.done.push((end.start, text.len() as int))
    } else {
        end.done
    }
}

/// A word of a text as it leaves the proxy.
pub open spec fn rewritten(text: Seq<char>, alphanumeric: Seq<bool>, word: (int, int)) -> Seq<
    char,
> {
    if is_address_given(text.subrange(word.0, word.1), alphanumeric.subrange(word.0, word.1)) {
        TONY_BOGUSCOIN_ADDRESS@
    } else {
        text.subrange(word.0, word.1)
    }
}

/// The words of a text as they leave the proxy.
pub open spec fn rewritten_all(
    text: Seq<char>,
    alphanumeric: Seq<bool>,
    words: Seq<(int, int)>,
) -> Seq<Seq<char>> {
    words.map_values(|word: (int, int)| rewritten(text, alphanumeric, word))
}

/// A line as it leaves the proxy: the last character goes, every word is
/// rewritten, and the words are put together with one space between each
/// two. Which of the characters are letters or digits is given.
pub open spec fn tampered_given(msg: Seq<char>, alphanumeric: Seq<bool>) -> Seq<char>
    recommends
        msg.len() > 0,
        alphanumeric.len() == msg.len(),
{
    joined_with(rewritten_all(msg, alphanumeric, words(msg.drop_last())), " "@)
}

/// A line as it leaves the proxy.
pub open spec fn tampered(msg: Seq<char>) -> Seq<char>
    recommends
        msg.len() > 0,
{
    tampered_given(msg, alphanumeric_flags(msg))
}

/// The words of a text lie in it one behind the other, none is empty, none
/// holds whitespace, and whitespace stands before and behind each.
pub proof fn lemma_words(text: Seq<char>)
    ensures
        0 <= scan(text).start <= text.len(),
        forall|i: int| scan(text).start <= i < text.len() ==> !is_space(#[trigger] text[i]),
        scan(text).start > 0 ==> is_space(text[scan(text).start - 1]),
        forall|w: int|
            0 <= w < scan(text).done.len() ==> {
                let word = #[trigger] scan(text).done[w];
                &&& 0 <= word.0 < word.1 < scan(text).start
                &&& is_space(text[word.1])
                &&& word.0 > 0 ==> is_space(text[word.0 - 1])
                &&& forall|i: int| word.0 <= i < word.1 ==> !is_space(#[trigger] text[i])
                &&& w > 0 ==> scan(text).done[w - 1].1 < word.0
            },
    decreases text.len(),
{
    if text.len() > 0 {
        lemma_words(text.drop_last());
        let before = scan(text.drop_last());
        assert forall|w: int| 0 <= w < scan(text).done.len() implies {
            let word = #[trigger] scan(text).done[w];
            &&& 0 <= word.0 < word.1 < scan(text).start
            &&& is_space(text[word.1])
            &&& word.0 > 0 ==> is_space(text[word.0 - 1])
            &&& forall|i: int| word.0 <= i < word.1 ==> !is_space(#[trigger] text[i])
            &&& w > 0 ==> scan(text).done[w - 1].1 < word.0
        } by {
            let word = scan(text).done[w];
            if w < before.done.len() {
                assert(word == before.done[w]);
                assert(text.drop_last()[word.1] == text[word.1]);
                assert forall|i: int| word.0 <= i < word.1 implies !is_space(#[trigger] text[i]) by {
                    assert(text.drop_last()[i] == text[i]);
                }
                if word.0 > 0 {
                    assert(text.drop_last()[word.0 - 1] == text[word.0 - 1]);
                }
            } else {
                assert forall|i: int| word.0 <= i < word.1 implies !is_space(#[trigger] text[i]) by {
                    assert(text.drop_last()[i] == text[i]);
                }
                if word.0 > 0 {
                    assert(text.drop_last()[word.0 - 1] == text[word.0 - 1]);
                }
                if w > 0 {
                    assert(scan(text).done[w - 1] == before.done[w - 1]);
                }
            }
        }
        if !is_space(text.last()) {
            assert forall|i: int| scan(text).start <= i < text.len() implies !is_space(
                #[trigger] text[i],
            ) by {
                if i < text.len() - 1 {
                    assert(text.drop_last()[i] == text[i]);
                }
            }
            if scan(text).start > 0 {
                assert(text.drop_last()[scan(text).start - 1] == text[scan(text).start - 1]);
            }
        }
    }
}

/// Every character that is not whitespace belongs to a word that was read or
/// to the word that is being read.
pub proof fn lemma_words_cover(text: Seq<char>)
    ensures
        forall|i: int|
            0 <= i < scan(text).start && !is_space(#[trigger] text[i]) ==> exists|w: int|
                0 <= w < scan(text).done.len() && (#[trigger] scan(text).done[w]).0 <= i < scan(
                    text,
                ).done[w].1,
    decreases text.len(),
{
    if text.len() > 0 {
        lemma_words_cover(text.drop_last());
        lemma_words(text.drop_last());
        let before = scan(text.drop_last());
        assert forall|i: int|
            0 <= i < scan(text).start && !is_space(#[trigger] text[i]) implies exists|w: int|
            0 <= w < scan(text).done.len() && (#[trigger] scan(text).done[w]).0 <= i < scan(
                text,
            ).done[w].1 by {
            assert(text.drop_last()[i] == text[i]);
            if i < before.start {
                let w = choose|w: int|
                    0 <= w < before.done.len() && (#[trigger] before.done[w]).0 <= i
                        < before.done[w].1;
                assert(scan(text).done[w] == before.done[w]);
            } else {
                assert(scan(text).done[before.done.len() as int] == (
                    before.start,
                    text.len() - 1,
                ));
            }
        }
    }
}

/// Tells whether a character is ASCII whitespace.
pub fn is_ascii_space(c: char) -> (space: bool)
    ensures
        space == is_space(c),
{
    c == ' ' || c == '\t' || c == '\n' || c == '\x0c' || c == '\r'
}

/// Tells for each character of a text whether it is a letter or a digit.
pub fn alphanumerics(text: &str) -> (alphanumeric: Vec<bool>)
    ensures
        alphanumeric@ == alphanumeric_flags(text@),
{
    let mut alphanumeric: Vec<bool> = Vec::new();
    for c in it: text.chars()
        invariant
            it.seq() == text@,
            alphanumeric@ == alphanumeric_flags(text@.take(it.index())),
    {
        alphanumeric.push(char_is_alphanumeric(c));
        assert(alphanumeric@ =~= alphanumeric_flags(text@.take(it.index() + 1)));
    }
    assert(text@.take(text@.len() as int) =~= text@);
    alphanumeric
}

/// Tells whether a word looks like a Boguscoin address, given which of its
/// characters are letters or digits.
pub fn is_boguscoin_address_given(word: &str, alphanumeric: &[bool]) -> (address: bool)
    requires
        alphanumeric@.len() == word@.len(),
    ensures
        address == is_address_given(word@, alphanumeric@),
{
    let len = word.as_bytes().len();
    if len < 26 || len > 35 {
        return false;
    }
    let mut chars = word.chars();
    match chars.next() {
        Some(c) => {
            if c != '7' {
                return false;
            }
        },
        None => {
            return false;
        },
    }
    let mut i: usize = 0;
    while i < alphanumeric.len()
        invariant
            i <= alphanumeric.len(),
            alphanumeric@.len() == word@.len(),
            word@.len() > 0,
            word@[0] == '7',
            26 <= encode_utf8(word@).len() <= 35,
            forall|k: int| 0 <= k < i ==> #[trigger] alphanumeric@[k],
        decreases alphanumeric.len() - i,
    {
        if !alphanumeric[i] {
            return false;
        }
        i += 1;
    }
    true
}

/// Tells whether a word looks like a Boguscoin address.
pub fn is_boguscoin_address(word: &str) -> (address: bool)
    ensures
        address == is_address(word@),
{
    let alphanumeric = alphanumerics(word);
    is_boguscoin_address_given(word, alphanumeric.as_slice())
}

/// Adds the word from `start` to `end` to a line: rewritten, and behind a
/// space unless it is the first.
fn put_word(
    out: &mut String,
    msg: &str,
    alphanumeric: &[bool],
    start: usize,
    end: usize,
    first: bool,
    written: Ghost<Seq<(int, int)>>,
)
    requires
        start < end <= msg@.len(),
        alphanumeric@.len() == msg@.len(),
        first == (written@.len() == 0),
        old(out)@ == joined_with(rewritten_all(msg@, alphanumeric@, written@), " "@),
    ensures
        final(out)@ == joined_with(
            rewritten_all(msg@, alphanumeric@, written@.push((start as int, end as int))),
            " "@,
        ),
{
    let ghost all = rewritten_all(msg@, alphanumeric@, written@.push((start as int, end as int)));
    assert(all.drop_last() =~= rewritten_all(msg@, alphanumeric@, written@));
    let word = msg.substring_char(start, end);
    if !first {
        out.append(" ");
    }
    if is_boguscoin_address_given(word, slice_subrange(alphanumeric, start, end)) {
        out.append(TONY_BOGUSCOIN_ADDRESS);
    } else {
        out.append(word);
    }
}

/// Rewrites a line, given which of its characters are letters or digits:
/// its last character, the line feed, is taken off; every word that looks
/// like a Boguscoin address is replaced; and the words are put together
/// again with one space between each two.
pub fn tamper_msg_given(msg: &str, alphanumeric: &[bool]) -> (out: String)
    requires
        msg@.len() > 0,
        alphanumeric@.len() == msg@.len(),
    ensures
        out@ == tampered_given(msg@, alphanumeric@),
{
    let n = msg.unicode_len();
    let ghost body = msg@.drop_last();
    let mut out = String::new();
    let mut first = true;
    let mut start: usize = 0;
    let mut i: usize = 0;
    let ghost mut written: Seq<(int, int)> = Seq::empty();
    assert(body.take(0) =~= Seq::<char>::empty());
    for c in it: msg.chars()
        invariant
            it.seq() == msg@,
            n == msg@.len(),
            n > 0,
            alphanumeric@.len() == n,
            body == msg@.drop_last(),
            i == it.index(),
            first == (written.len() == 0),
            out@ == joined_with(rewritten_all(msg@, alphanumeric@, written), " "@),
            i < n ==> start <= i && written == scan(body.take(i as int)).done && start == scan(
                body.take(i as int),
            ).start,
            i == n ==> start <= n - 1 && written == scan(body).done && start == scan(body).start,
    {
        if i + 1 < n {
            assert(body.take(i + 1).drop_last() =~= body.take(i as int));
            if is_ascii_space(c) {
                if start < i {
                    put_word(&mut out, msg, alphanumeric, start, i, first, Ghost(written));
                    proof {
                        written = written.push((start as int, i as int));
                    }
                    first = false;
                }
                start = i + 1;
            }
        } else {
            assert(body.take(i as int) =~= body);
        }
        i += 1;
    }
    if start < n - 1 {
        put_word(&mut out, msg, alphanumeric, start, n - 1, first, Ghost(written));
    }
    out
}

/// Rewrites a line: its last character, the line feed, is taken off; every
/// word that looks like a Boguscoin address is replaced; and the words are
/// put together again with one space between each two.
pub fn tamper_msg(msg: &str) -> (out: String)
    requires
        msg@.len() > 0,
    ensures
        out@ == tampered(msg@),
{
    let alphanumeric = alphanumerics(msg);
    tamper_msg_given(msg, alphanumeric.as_slice())
}

} // verus!
