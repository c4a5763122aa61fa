//! The emoji that `/greed` reacts with on the original post of a meme.
//!
//! The emojis are tried in order; each is looked for in the message's Unicode
//! reactions with one scan that goes on where the previous emoji's search
//! stopped, and the first emoji that this scan does not find is chosen.
use vstd::prelude::*;
use crate::text::text_eq;

verus! {

/// A reaction on a message: a Unicode emoji, or a custom one.
#[derive(Debug)]
pub enum ReactionKind {
    Unicode(String),
    Custom,
}

/// The Unicode emojis among the reactions, in order.
pub open spec fn unicode_reactions(rs: Seq<ReactionKind>) -> Seq<Seq<char>>
    decreases rs.len(),
{
    if rs.len() == 0 {
        Seq::empty()
    } else {
        unicode_reactions(rs.drop_last()) + match rs.last() {
            ReactionKind::Unicode(e) => seq![e@],
            ReactionKind::Custom => Seq::empty(),
        }
    }
}

/// The first position at or after `p` where `rs` holds `e`.
pub open spec fn position_from(rs: Seq<Seq<char>>, e: Seq<char>, p: int) -> Option<int>
    decreases rs.len() - p,
{
    if p < 0 || p >= rs.len() {
        None
    } else if rs[p] == e {
        Some(p)
    } else {
        position_from(rs, e, p + 1)
    }
}

/// The emoji chosen from position `i` on, with the scan of the reactions at
/// position `p`: an emoji that the scan finds moves the scan past it, and the
/// first emoji that it does not find is chosen.
pub open spec fn pick_from(emojis: Seq<Seq<char>>, rs: Seq<Seq<char>>, i: int, p: int) -> Option<
    int,
>
    decreases emojis.len() - i,
{
    if i < 0 || i >= emojis.len() {
        None
    } else {
        match position_from(rs, emojis[i], p) {
            Some(q) => pick_from(emojis, rs, i + 1, q + 1),
            None => Some(i),
        }
    }
}

/// The position of the emoji chosen among `emojis` for a message with the
/// Unicode reactions `rs`.
pub open spec fn unused_emoji_index(emojis: Seq<Seq<char>>, rs: Seq<Seq<char>>) -> Option<int> {
    pick_from(emojis, rs, 0, 0)
}

/// The Unicode emojis among the reactions; see [`unicode_reactions`].
pub fn unicode_reaction_names(rs: &Vec<ReactionKind>) -> (r: Vec<String>)
    ensures
        r@.map_values(|s: String| s@) == unicode_reactions(rs@),
{
    let mut r: Vec<String> = Vec::new();
    let mut i: usize = 0;
    while i < rs.len()
        invariant
            i <= rs@.len(),
            r@.map_values(|s: String| s@) == unicode_reactions(rs@.take(i as int)),
        decreases rs@.len() - i,
    {
        let ghost before = r@.map_values(|s: String| s@);
        match &rs[i] {
            ReactionKind::Unicode(e) => {
                r.push(e.clone());
            },
            ReactionKind::Custom => {},
        }
        assert(rs@.take(i + 1).drop_last() =~= rs@.take(i as int));
        assert(rs@.take(i + 1).last() == rs@[i as int]);
        assert(r@.map_values(|s: String| s@) =~= unicode_reactions(rs@.take(i + 1)));
        i = i + 1;
    }
    assert(rs@.take(i as int) =~= rs@);
    r
}

/// The position of the emoji chosen among `emojis` for a message with the
/// Unicode reactions `reactions`; see [`unused_emoji_index`].
pub fn pick_unused_emoji(emojis: &Vec<String>, reactions: &Vec<String>) -> (r: Option<usize>)
    ensures
        match r {
            Some(i) => unused_emoji_index(
                emojis@.map_values(|s: String| s@),
                reactions@.map_values(|s: String| s@),
            ) == Some(i as int),
            None => unused_emoji_index(
                emojis@.map_values(|s: String| s@),
                reactions@.map_values(|s: String| s@),
            ) is None,
        },
{
    let ghost es = emojis@.map_values(|s: String| s@);
    let ghost rs = reactions@.map_values(|s: String| s@);
    let mut p: usize = 0;
    let mut i: usize = 0;
    while i < emojis.len()
        invariant
            es == emojis@.map_values(|s: String| s@),
            rs == reactions@.map_values(|s: String| s@),
            i <= emojis@.len(),
            p <= reactions@.len(),
            unused_emoji_index(es, rs) == pick_from(es, rs, i as int, p as int),
        decreases emojis@.len() - i,
    {
        let e = emojis[i].as_str();
        let mut q: usize = p;
        let mut found = false;
        while q < reactions.len() && !found
            invariant
                es == emojis@.map_values(|s: String| s@),
                rs == reactions@.map_values(|s: String| s@),
                i < emojis@.len(),
                e@ == es[i as int],
                p <= q <= reactions@.len(),
                found ==> q < reactions@.len() && position_from(rs, e@, p as int) == Some(q as int),
                !found ==> position_from(rs, e@, p as int) == position_from(rs, e@, q as int),
            decreases reactions@.len() - q, if found { 0int } else { 1int },
        {
            if text_eq(reactions[q].as_str(), e) {
                found = true;
            } else {
                q = q + 1;
            }
        }
        if !found {
            assert(position_from(rs, e@, q as int) is None);
            return Some(i);
        }
        assert(position_from(rs, e@, p as int) == Some(q as int));
        p = q + 1;
        i = i + 1;
    }
    None
}

/// The emoji at position `i` of the emojis crate's list, as text.
pub uninterp spec fn emoji_table(i: int) -> Option<Seq<char>>;

/// `list` is the emojis crate's list: its emojis up to the first position
/// that holds none.
pub open spec fn is_emoji_list(list: Seq<Seq<char>>) -> bool {
    &&& forall|k: int| 0 <= k < list.len() ==> emoji_table(k) == Some(#[trigger] list[k])
    &&& (emoji_table(list.len() as int) is None || list.len() == usize::MAX)
}

/// `emojis::iter()`, each emoji as text: the crate's list (ordered by Unicode
/// CLDR data, without the non-default skin tones), walked once. The contract
/// claims that the emoji at each position is a function of the position, so
/// that the result is the list of [`is_emoji_list`]; which emojis the list
/// holds is not stated.
#[verifier::external_body]
fn emoji_texts() -> (r: Vec<String>)
    ensures
        forall|k: int| 0 <= k < r@.len() ==> emoji_table(k) == Some(#[trigger] r@[k]@),
        emoji_table(r@.len() as int) is None,
{
    emojis::iter().map(|e| e.as_str().to_string()).collect()
}

/// All emojis of the emojis crate, in its order; see [`is_emoji_list`].
pub fn emoji_list() -> (r: Vec<String>)
    ensures
        is_emoji_list(r@.map_values(|s: String| s@)),
{
    let r = emoji_texts();
    assert(is_emoji_list(r@.map_values(|s: String| s@)));
    r
}

/// The emoji to react with on a message with the reactions `reactions`: the
/// one that [`unused_emoji_index`] chooses among the emojis crate's list.
pub fn find_unused_emoji(reactions: &Vec<ReactionKind>) -> (r: Option<String>)
    ensures
        exists|list: Seq<Seq<char>>|
            is_emoji_list(list) && match r {
                Some(e) => unused_emoji_index(list, unicode_reactions(reactions@)) matches Some(i)
                    && 0 <= i < list.len() && e@ == list[i],
                None => unused_emoji_index(list, unicode_reactions(reactions@)) is None,
            },
{
    let list = emoji_list();
    let names = unicode_reaction_names(reactions);
    let ghost es = list@.map_values(|s: String| s@);
    match pick_unused_emoji(&list, &names) {
        Some(i) => {
            proof {
                lemma_pick_from_bounds(es, unicode_reactions(reactions@), 0, 0);
            }
            let e = list[i].clone();
            assert(e@ == es[i as int]);
            Some(e)
        },
        None => None,
    }
}

proof fn lemma_pick_from_bounds(emojis: Seq<Seq<char>>, rs: Seq<Seq<char>>, i: int, p: int)
    ensures
        pick_from(emojis, rs, i, p) matches Some(k) ==> i <= k < emojis.len(),
    decreases emojis.len() - i,
{
    if 0 <= i < emojis.len() {
        if let Some(q) = position_from(rs, emojis[i], p) {
            lemma_pick_from_bounds(emojis, rs, i + 1, q + 1);
        }
    }
}

proof fn lemma_position_from_found(rs: Seq<Seq<char>>, e: Seq<char>, p: int)
    ensures
        position_from(rs, e, p) matches Some(q) ==> 0 <= q < rs.len() && rs[q] == e,
    decreases rs.len() - p,
{
    if 0 <= p < rs.len() && rs[p] != e {
        lemma_position_from_found(rs, e, p + 1);
    }
}

proof fn lemma_pick_from_skips_reactions(emojis: Seq<Seq<char>>, rs: Seq<Seq<char>>, i: int, p: int)
    ensures
        pick_from(emojis, rs, i, p) matches Some(r) ==> forall|k: int|
            i <= k < r ==> rs.contains(#[trigger] emojis[k]),
    decreases emojis.len() - i,
{
    if 0 <= i < emojis.len() {
        lemma_position_from_found(rs, emojis[i], p);
        if let Some(q) = position_from(rs, emojis[i], p) {
            lemma_pick_from_skips_reactions(emojis, rs, i + 1, q + 1);
            if pick_from(emojis, rs, i, p) is Some {
                let r = pick_from(emojis, rs, i, p)->0;
                assert forall|k: int| i <= k < r implies rs.contains(#[trigger] emojis[k]) by {
                    if k == i {
                        assert(rs[q] == emojis[i]);
                    }
                }
            }
        }
    }
}

/// Every emoji before the chosen one is among the message's reactions.
pub proof fn lemma_skipped_emojis_are_reactions(emojis: Seq<Seq<char>>, rs: Seq<Seq<char>>)
    ensures
        unused_emoji_index(emojis, rs) matches Some(r) ==> forall|k: int|
            0 <= k < r ==> rs.contains(#[trigger] emojis[k]),
{
    lemma_pick_from_skips_reactions(emojis, rs, 0, 0);
}

/// A message without Unicode reactions gets the first emoji.
pub proof fn lemma_no_reactions_first_emoji(emojis: Seq<Seq<char>>)
    requires
        emojis.len() > 0,
    ensures
        unused_emoji_index(emojis, Seq::empty()) == Some(0int),
{
}

} // verus!
