//! Case-insensitive multi-token search over an item's text fields.
//!
//! A query is lowercased and split on whitespace; an item matches when every
//! token occurs somewhere in the lowercased concatenation of its title,
//! username, url, notes and tags. Lowercasing is the one outside call; the
//! splitting and substring search are verified against the spec functions
//! here, which also give the service's search contract its meaning.

use vstd::prelude::*;

use crate::models::{Item, ItemView};
use vstd::string::{StrSliceExecFns, StringExecFns};
use vstd::utf8::encode_utf8;

verus! {

/// The Unicode lowercase mapping of a string. A name for what
/// str::to_lowercase returns: the result depends on the characters alone.
pub uninterp spec fn lower_of(s: Seq<char>) -> Seq<char>;

/// Relies on str::to_lowercase: the Unicode lowercase mapping, a function of
/// the characters alone; an empty string stays empty.
#[verifier::external_body]
fn to_lowercase(s: &str) -> (r: String)
    ensures
        r@ == lower_of(s@),
        s@.len() == 0 ==> r@.len() == 0,
{
    s.to_lowercase()
}

/// ASCII whitespace, the separator between query tokens.
pub open spec fn is_ws(b: u8) -> bool {
    b == 0x20 || (0x09 <= b && b <= 0x0d)
}

/// One token when it is non-empty, else nothing.
pub open spec fn emit_token(cur: Seq<u8>) -> Seq<Seq<u8>> {
    if cur.len() == 0 {
        Seq::empty()
    } else {
        seq![cur]
    }
}

/// The tokens of `s` from position `i`, with `cur` the partial token read so
/// far: maximal runs of non-whitespace bytes.
pub open spec fn tokens_from(s: Seq<u8>, i: int, cur: Seq<u8>) -> Seq<Seq<u8>>
    decreases s.len() - i,
{
    if i < 0 || i >= s.len() {
        emit_token(cur)
    } else if is_ws(s[i]) {
        emit_token(cur) + tokens_from(s, i + 1, Seq::empty())
    } else {
        tokens_from(s, i + 1, cur.push(s[i]))
    }
}

/// The whitespace-separated tokens of a byte string.
pub open spec fn spec_tokens(s: Seq<u8>) -> Seq<Seq<u8>> {
    tokens_from(s, 0, Seq::empty())
}

/// `pat` occurs in `text` starting at `i`.
pub open spec fn is_match_at(text: Seq<u8>, pat: Seq<u8>, i: int) -> bool {
    0 <= i && i + pat.len() <= text.len() && text.subrange(i, i + pat.len()) == pat
}

/// `pat` occurs somewhere in `text`.
pub open spec fn contains_sub(text: Seq<u8>, pat: Seq<u8>) -> bool {
    exists|i: int| is_match_at(text, pat, i)
}

/// Split a byte string into its whitespace-separated tokens.
pub fn tokenize(bytes: &Vec<u8>) -> (toks: Vec<Vec<u8>>)
    ensures
        toks.deep_view() == spec_tokens(bytes@),
{
    let mut toks: Vec<Vec<u8>> = Vec::new();
    let mut cur: Vec<u8> = Vec::new();
    let mut i: usize = 0;
    while i < bytes.len()
        invariant
            i <= bytes@.len(),
            toks.deep_view() + tokens_from(bytes@, i as int, cur@) == spec_tokens(bytes@),
        decreases bytes@.len() - i,
    {
        let b = bytes[i];
        let ghost toksv = toks.deep_view();
        let ghost curv = cur@;
        if b == 0x20 || (0x09 <= b && b <= 0x0d) {
            if cur.len() > 0 {
                toks.push(cur);
                cur = Vec::new();
                proof {
                    assert(toks.deep_view() =~~= toksv.push(curv));
                    assert(toksv.push(curv) + tokens_from(bytes@, i + 1 as int, cur@) =~~= toksv
                        + (emit_token(curv) + tokens_from(bytes@, i + 1 as int, cur@)));
                }
            } else {
                proof {
                    assert(cur@ =~= Seq::<u8>::empty());
                    assert(emit_token(curv) + tokens_from(bytes@, i + 1 as int, Seq::<
                        u8,
                    >::empty()) =~= tokens_from(bytes@, i + 1 as int, Seq::empty()));
                }
            }
        } else {
            cur.push(b);
            proof {
                assert(cur@ =~= curv.push(b));
            }
        }
        i += 1;
    }
    if cur.len() > 0 {
        let ghost toksv = toks.deep_view();
        let ghost curv = cur@;
        toks.push(cur);
        proof {
            assert(toks.deep_view() =~~= toksv.push(curv));
            assert(toksv.push(curv) =~~= toksv + emit_token(curv));
        }
    } else {
        proof {
            assert(toks.deep_view() + emit_token(cur@) =~~= toks.deep_view());
        }
    }
    toks
}

/// Does `pat` occur in `text` at exactly position `start`?
fn match_at(text: &Vec<u8>, pat: &Vec<u8>, start: usize) -> (r: bool)
    requires
        start + pat@.len() <= text@.len(),
    ensures
        r == is_match_at(text@, pat@, start as int),
{
    let text_len = text.len();
    let mut k: usize = 0;
    while k < pat.len()
        invariant
            k <= pat@.len(),
            start + pat@.len() <= text@.len(),
            text_len == text@.len(),
            forall|l: int| 0 <= l < k ==> text@[start + l] == pat@[l],
        decreases pat@.len() - k,
    {
        if text[start + k] != pat[k] {
            proof {
                assert(text@.subrange(start as int, start + pat@.len()) == pat@ ==> text@[start
                    + k] == pat@[k as int]) by {
                    if text@.subrange(start as int, start + pat@.len()) == pat@ {
                        assert(text@.subrange(start as int, start + pat@.len())[k as int]
                            == text@[start + k]);
                    }
                }
            }
            return false;
        }
        k += 1;
    }
    proof {
        assert(text@.subrange(start as int, start + pat@.len()) =~= pat@);
    }
    true
}

/// Does `pat` occur anywhere in `text`?
pub fn contains_bytes(text: &Vec<u8>, pat: &Vec<u8>) -> (r: bool)
    ensures
        r == contains_sub(text@, pat@),
{
    if pat.len() > text.len() {
        return false;
    }
    if pat.len() == 0 {
        proof {
            assert(text@.subrange(0, 0) =~= pat@);
            assert(is_match_at(text@, pat@, 0));
        }
        return true;
    }
    let count = text.len() - pat.len() + 1;
    let mut start: usize = 0;
    while start < count
        invariant
            1 <= pat@.len() <= text@.len(),
            count == text@.len() - pat@.len() + 1,
            forall|i: int| 0 <= i < start ==> !is_match_at(text@, pat@, i),
        decreases count - start,
    {
        if match_at(text, pat, start) {
            return true;
        }
        start += 1;
    }
    false
}

/// The text an item is searched in: its title, username, url, notes and tags
/// joined by single spaces.
pub open spec fn join_tags(tags: Seq<Seq<char>>) -> Seq<char>
    decreases tags.len(),
{
    if tags.len() == 0 {
        Seq::empty()
    } else if tags.len() == 1 {
        tags[0]
    } else {
        tags[0] + seq![' '] + join_tags(tags.drop_first())
    }
}

pub open spec fn item_search_text(it: ItemView) -> Seq<char> {
    it.title + seq![' '] + it.username + seq![' '] + it.url + seq![' '] + it.notes + seq![' ']
        + join_tags(it.tags)
}

/// Appending one more tag extends the joined text by a space and the tag.
proof fn lemma_join_tags_snoc(tags: Seq<Seq<char>>, x: Seq<char>)
    ensures
        join_tags(tags.push(x)) == if tags.len() == 0 {
            x
        } else {
            join_tags(tags) + seq![' '] + x
        },
    decreases tags.len(),
{
    let p = tags.push(x);
    if tags.len() == 0 {
        assert(p.len() == 1);
        assert(join_tags(p) == p[0]);
        assert(p[0] == x);
    } else {
        assert(p.drop_first() =~= tags.drop_first().push(x));
        lemma_join_tags_snoc(tags.drop_first(), x);
        assert(p[0] == tags[0]);
        if tags.len() == 1 {
            assert(join_tags(p) == p[0] + seq![' '] + join_tags(p.drop_first()));
            assert(join_tags(p.drop_first()) == x);
            assert(join_tags(tags) == tags[0]);
        } else {
            assert(join_tags(p) == p[0] + seq![' '] + (join_tags(tags.drop_first()) + seq![' ']
                + x));
            assert(join_tags(tags) == tags[0] + seq![' '] + join_tags(tags.drop_first()));
            assert(p[0] + seq![' '] + (join_tags(tags.drop_first()) + seq![' '] + x) =~= (tags[0]
                + seq![' '] + join_tags(tags.drop_first())) + seq![' '] + x);
        }
    }
}

/// Build the searchable text of an item.
fn build_search_text(it: &Item) -> (s: String)
    ensures
        s@ == item_search_text(it@),
{
    proof {
        reveal_strlit(" ");
        assert(" "@ =~= seq![' ']);
    }
    let mut s = String::new();
    s.append(it.title.as_str());
    s.append(" ");
    s.append(it.username.as_str());
    s.append(" ");
    s.append(it.url.as_str());
    s.append(" ");
    s.append(it.notes.as_str());
    s.append(" ");
    let ghost prefix = s@;
    let ghost dv = it.tags.deep_view();
    let mut k: usize = 0;
    while k < it.tags.len()
        invariant
            k <= it.tags@.len(),
            dv == it.tags.deep_view(),
            dv.len() == it.tags@.len(),
            s@ == prefix + join_tags(dv.take(k as int)),
        decreases it.tags@.len() - k,
    {
        proof {
            reveal_strlit(" ");
            assert(" "@ =~= seq![' ']);
        }
        if k > 0 {
            s.append(" ");
        }
        s.append(it.tags[k].as_str());
        proof {
            assert(dv[k as int] == it.tags@[k as int]@);
            lemma_join_tags_snoc(dv.take(k as int), dv[k as int]);
            assert(dv.take(k + 1 as int) =~= dv.take(k as int).push(dv[k as int]));
            if k == 0 {
                assert(s@ =~= prefix + join_tags(dv.take(k + 1 as int)));
            } else {
                assert(s@ =~= prefix + join_tags(dv.take(k + 1 as int)));
            }
        }
        k += 1;
    }
    proof {
        assert(dv.take(it.tags@.len() as int) =~= dv);
        assert(prefix + join_tags(dv) =~= item_search_text(it@));
    }
    s
}

/// Every token occurs in the lowercased searchable text of the item.
pub open spec fn item_matches(toks: Seq<Seq<u8>>, it: ItemView) -> bool {
    forall|k: int|
        0 <= k < toks.len() ==> contains_sub(
            encode_utf8(lower_of(item_search_text(it))),
            #[trigger] toks[k],
        )
}

/// The tokens of a query: lowercased, UTF-8 encoded, split on whitespace.
pub open spec fn spec_query_tokens(q: Seq<char>) -> Seq<Seq<u8>> {
    spec_tokens(encode_utf8(lower_of(q)))
}

/// An item matches a query when the query is empty or every token of the
/// lowercased query occurs in the item's lowercased searchable text.
pub open spec fn search_matches(q: Seq<char>, it: ItemView) -> bool {
    q.len() == 0 || item_matches(spec_query_tokens(q), it)
}

/// Compute the tokens of a query.
pub fn query_tokens(query: &str) -> (toks: Vec<Vec<u8>>)
    ensures
        toks.deep_view() == spec_query_tokens(query@),
{
    let lowered = to_lowercase(query);
    let bytes = lowered.as_str().as_bytes_vec();
    tokenize(&bytes)
}

/// Test one item against precomputed query tokens.
pub fn item_matches_query(it: &Item, toks: &Vec<Vec<u8>>) -> (r: bool)
    ensures
        r == item_matches(toks.deep_view(), it@),
{
    let text = build_search_text(it);
    let lowered = to_lowercase(text.as_str());
    let hay = lowered.as_str().as_bytes_vec();
    let ghost tdv = toks.deep_view();
    let mut k: usize = 0;
    while k < toks.len()
        invariant
            k <= toks@.len(),
            tdv == toks.deep_view(),
            tdv.len() == toks@.len(),
            hay@ == encode_utf8(lower_of(item_search_text(it@))),
            forall|l: int|
                0 <= l < k ==> contains_sub(
                    encode_utf8(lower_of(item_search_text(it@))),
                    #[trigger] tdv[l],
                ),
        decreases toks@.len() - k,
    {
        proof {
            assert(tdv[k as int] == toks@[k as int]@);
        }
        if !contains_bytes(&hay, &toks[k]) {
            return false;
        }
        k += 1;
    }
    true
}

} // verus!
