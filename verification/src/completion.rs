//! What a plain server offers without a project: the completion of a few
//! keywords, and the test for the framework's design macro.

use vstd::prelude::*;
use vstd::string::*;
use crate::text::{bytes_occur_at, occurs_at, starts_with, text_bytes};

verus! {

/// Whether `part` stands somewhere in `whole`.
pub open spec fn contains_bytes(whole: Seq<u8>, part: Seq<u8>) -> bool {
    exists|at: int| #[trigger] occurs_at(whole, at, part)
}

/// The start of the framework's design macro.
pub open spec fn live_design_marker() -> Seq<char> {
    "live_design!{"@
}

/// Whether a source text uses the framework's design macro.
pub fn has_live_design_macro(content: &str) -> (r: bool)
    ensures
        r == contains_bytes(content.spec_bytes(), text_bytes(live_design_marker())),
{
    let whole = content.as_bytes();
    let part = "live_design!{".as_bytes();
    let n = whole.len();
    let mut at: usize = 0;
    while at <= n
        invariant
            at <= n + 1,
            n == whole@.len(),
            whole@ == content.spec_bytes(),
            part@ == text_bytes(live_design_marker()),
            forall|j: int| 0 <= j < at ==> !occurs_at(whole@, j, part@),
        decreases n + 1 - at,
    {
        if bytes_occur_at(whole, at, part) {
            return true;
        }
        if at == n {
            assert forall|j: int| !occurs_at(whole@, j, part@) by {
                if j > n {
                    assert(!occurs_at(whole@, j, part@));
                }
            }
            return false;
        }
        at = at + 1;
    }
    assert forall|j: int| !occurs_at(whole@, j, part@) by {}
    false
}

/// The keywords that are offered, in the order in which they are offered.
pub open spec fn keyword_texts() -> Seq<Seq<char>> {
    seq!["use"@, "fn"@, "link"@, "pub"@, "crate::"@, "dep"@]
}

/// The keywords that are offered, in the order in which they are offered.
pub fn keywords() -> (r: Vec<&'static str>)
    ensures
        word_texts(r@) == keyword_texts(),
{
    let mut list: Vec<&'static str> = Vec::new();
    list.push("use");
    list.push("fn");
    list.push("link");
    list.push("pub");
    list.push("crate::");
    list.push("dep");
    assert(word_texts(list@) =~= keyword_texts());
    list
}

/// The first `k` of `words` that begin with `trigger`, in order.
pub open spec fn matching_words(words: Seq<Seq<char>>, trigger: Seq<u8>, k: int) -> Seq<Seq<char>>
    decreases k,
{
    if k <= 0 {
        Seq::<Seq<char>>::empty()
    } else if starts_with(text_bytes(words[k - 1]), trigger) {
        matching_words(words, trigger, k - 1).push(words[k - 1])
    } else {
        matching_words(words, trigger, k - 1)
    }
}

/// The texts of a list of words.
pub open spec fn word_texts(words: Seq<&'static str>) -> Seq<Seq<char>> {
    words.map_values(|word: &'static str| word@)
}

/// The keywords that begin with what was typed, in the order in which they
/// are offered.
pub fn handle_completion(trigger_text: &str) -> (r: Vec<&'static str>)
    ensures
        word_texts(r@) == matching_words(
            keyword_texts(),
            trigger_text.spec_bytes(),
            keyword_texts().len() as int,
        ),
{
    let all = keywords();
    let trigger = trigger_text.as_bytes();
    let mut items: Vec<&'static str> = Vec::new();
    let n = all.len();
    let mut i: usize = 0;
    assert(word_texts(all@).len() == n);
    assert(word_texts(items@) =~= matching_words(keyword_texts(), trigger@, 0));
    while i < n
        invariant
            i <= n,
            n == all@.len(),
            n == keyword_texts().len(),
            word_texts(all@) == keyword_texts(),
            trigger@ == trigger_text.spec_bytes(),
            word_texts(items@) == matching_words(keyword_texts(), trigger@, i as int),
        decreases n - i,
    {
        let keyword = all[i];
        let ghost before = items@;
        assert(word_texts(all@)[i as int] == keyword@);
        if bytes_occur_at(keyword.as_bytes(), 0, trigger) {
            items.push(keyword);
            assert(word_texts(items@) =~= word_texts(before).push(keyword@));
        }
        i = i + 1;
    }
    items
}

} // verus!
