//! Matching an audio stream to the media-player instance that plays it.
//!
//! Neither the mixer nor the bus says which player instance owns which
//! stream, so the streams of one application, in ascending id order, are
//! matched by position to its player instances, in lexicographic name order.
//! The match is refused where the application has more streams than player
//! instances.

use vstd::prelude::*;
use vstd::relations::{sorted_by, total_ordering};
use vstd::seq_lib::{lemma_sorted_unique, to_multiset_build, to_multiset_insert, to_multiset_len};
use vstd::string::*;
use crate::selector::player_prefix;
use crate::text::{
    is_prefix_of, lemma_text_order_total, opt_view, starts_with, text_at_most, text_le,
    text_order, texts, to_lowercase, lowercase_of,
};

verus! {

/// Ascending order on ids.
pub open spec fn id_order() -> spec_fn(usize, usize) -> bool {
    |a: usize, b: usize| a <= b
}

/// The ids in ascending order.
pub open spec fn sorted_ids(s: Seq<usize>) -> Seq<usize> {
    s.sort_by(id_order())
}

/// The texts in lexicographic order.
pub open spec fn sorted_texts(s: Seq<Seq<char>>) -> Seq<Seq<char>> {
    s.sort_by(text_order())
}

proof fn lemma_id_order_total()
    ensures
        total_ordering(id_order()),
{
}

/// Sorts ids in ascending order.
pub fn sort_ids(v: &Vec<usize>) -> (r: Vec<usize>)
    ensures
        r@ == sorted_ids(v@),
{
    broadcast use vstd::seq_lib::group_to_multiset_ensures;

    let mut out: Vec<usize> = Vec::new();
    let mut i: usize = 0;
    while i < v.len()
        invariant
            i <= v.len(),
            sorted_by(out@, id_order()),
            out@.to_multiset() == v@.subrange(0, i as int).to_multiset(),
        decreases v.len() - i,
    {
        let x = v[i];
        let mut pos: usize = 0;
        while pos < out.len() && out[pos] <= x
            invariant
                pos <= out.len(),
                forall|k: int| 0 <= k < pos ==> out@[k] <= x,
            decreases out.len() - pos,
        {
            pos += 1;
        }
        proof {
            assert(v@.subrange(0, i as int + 1) =~= v@.subrange(0, i as int).push(x));
            to_multiset_build(v@.subrange(0, i as int), x);
            to_multiset_insert(out@, pos as int, x);
        }
        let ghost before = out@;
        out.insert(pos, x);
        assert(sorted_by(out@, id_order())) by {
            assert forall|a: int, b: int| 0 <= a < b < out@.len() implies #[trigger] id_order()(
                out@[a],
                out@[b],
            ) by {
                if b < pos {
                } else if a > pos {
                } else if a == pos {
                    if b > pos + 1 {
                        assert(id_order()(before[pos as int], before[b - 1]));
                    }
                } else {
                    assert(id_order()(before[a], x));
                }
            }
        }
        i += 1;
    }
    proof {
        assert(v@.subrange(0, v.len() as int) =~= v@);
        lemma_id_order_total();
        v@.lemma_sort_by_ensures(id_order());
        lemma_sorted_unique(out@, sorted_ids(v@), id_order());
    }
    out
}

/// Sorts texts in lexicographic order.
pub fn sort_texts(v: &Vec<String>) -> (r: Vec<String>)
    ensures
        texts(r@) == sorted_texts(texts(v@)),
{
    broadcast use vstd::seq_lib::group_to_multiset_ensures;

    proof {
        lemma_text_order_total();
    }
    let mut out: Vec<String> = Vec::new();
    let mut i: usize = 0;
    while i < v.len()
        invariant
            i <= v.len(),
            total_ordering(text_order()),
            sorted_by(texts(out@), text_order()),
            texts(out@).to_multiset() == texts(v@.subrange(0, i as int)).to_multiset(),
        decreases v.len() - i,
    {
        let x = &v[i];
        let mut pos: usize = 0;
        while pos < out.len() && text_at_most(out[pos].as_str(), x.as_str())
            invariant
                pos <= out.len(),
                forall|k: int| 0 <= k < pos ==> text_le(out@[k]@, x@),
            decreases out.len() - pos,
        {
            pos += 1;
        }
        let ghost before = texts(out@);
        proof {
            assert(texts(v@.subrange(0, i as int + 1)) =~= texts(v@.subrange(0, i as int)).push(
                x@,
            ));
            to_multiset_build(texts(v@.subrange(0, i as int)), x@);
            to_multiset_insert(before, pos as int, x@);
            if pos < out.len() {
                assert(!text_le(before[pos as int], x@));
                assert(text_order()(before[pos as int], x@) || text_order()(x@, before[pos as int]));
            }
        }
        out.insert(pos, x.clone());
        assert(texts(out@) =~= before.insert(pos as int, x@));
        assert(sorted_by(texts(out@), text_order())) by {
            assert forall|a: int, b: int| 0 <= a < b < texts(out@).len() implies #[trigger] text_order()(
                texts(out@)[a],
                texts(out@)[b],
            ) by {
                if b < pos {
                } else if a > pos {
                } else if a == pos {
                    if b > pos + 1 {
                        assert(text_order()(before[pos as int], before[b - 1]));
                    }
                } else {
                    assert(text_order()(before[a], x@));
                }
            }
        }
        i += 1;
    }
    proof {
        assert(v@.subrange(0, v.len() as int) =~= v@);
        texts(v@).lemma_sort_by_ensures(text_order());
        lemma_sorted_unique(texts(out@), sorted_texts(texts(v@)), text_order());
    }
    out
}

/// Position of the first occurrence of `x` in `s`.
pub open spec fn position_of(s: Seq<usize>, x: usize) -> Option<int>
    decreases s.len(),
{
    if s.len() == 0 {
        None
    } else if s[0] == x {
        Some(0)
    } else {
        match position_of(s.drop_first(), x) {
            Some(k) => Some(k + 1),
            None => None,
        }
    }
}

/// Finds the first position of `x` in `s`.
pub fn position_in(s: &Vec<usize>, x: usize) -> (r: Option<usize>)
    ensures
        match r {
            Some(k) => position_of(s@, x) == Some(k as int),
            None => position_of(s@, x) is None,
        },
{
    let mut i: usize = 0;
    assert(s@.subrange(0, s@.len() as int) =~= s@);
    while i < s.len()
        invariant
            i <= s.len(),
            match position_of(s@.subrange(i as int, s@.len() as int), x) {
                Some(d) => position_of(s@, x) == Some(d + i),
                None => position_of(s@, x) is None,
            },
        decreases s.len() - i,
    {
        let ghost rest = s@.subrange(i as int, s@.len() as int);
        assert(rest.drop_first() =~= s@.subrange(i as int + 1, s@.len() as int));
        if s[i] == x {
            assert(position_of(rest, x) == Some(0int));
            return Some(i);
        }
        i += 1;
    }
    None
}

/// The player instance matched to stream `sink`, given the ids of all streams
/// of its application and the names of that application's player instances:
/// the one at the stream's position, none where the stream is not among the
/// streams or where there are more streams than instances.
pub open spec fn matched_player(sink: usize, sinks: Seq<usize>, players: Seq<Seq<char>>) -> Option<
    Seq<char>,
> {
    let ss = sorted_ids(sinks);
    let ps = sorted_texts(players);
    match position_of(ss, sink) {
        None => None,
        Some(k) => if ss.len() > ps.len() {
            None
        } else if k < ps.len() {
            Some(ps[k])
        } else {
            None
        },
    }
}

/// No stream is matched to a player instance, and no player is asked for
/// art, whenever the application has more streams than player instances.
pub proof fn lemma_no_match_when_streams_outnumber_players(
    sink: usize,
    sinks: Seq<usize>,
    players: Seq<Seq<char>>,
)
    requires
        sinks.len() > players.len(),
    ensures
        matched_player(sink, sinks, players) is None,
        art_sources(sink, sinks, players) == Seq::<Seq<char>>::empty(),
{
    lemma_id_order_total();
    lemma_text_order_total();
    sinks.lemma_sort_by_ensures(id_order());
    players.lemma_sort_by_ensures(text_order());
    to_multiset_len(sinks);
    to_multiset_len(sorted_ids(sinks));
    to_multiset_len(players);
    to_multiset_len(sorted_texts(players));
}

/// Matches stream `sink_id` to a player instance of its application.
pub fn match_sink_to_player(sink_id: usize, sink_ids: &Vec<usize>, players: &Vec<String>) -> (r:
    Option<String>)
    ensures
        opt_view(r) == matched_player(sink_id, sink_ids@, texts(players@)),
{
    let ss = sort_ids(sink_ids);
    let ps = sort_texts(players);
    let k = match position_in(&ss, sink_id) {
        Some(k) => k,
        None => return None,
    };
    if ss.len() > ps.len() {
        return None;
    }
    if k < ps.len() {
        Some(ps[k].clone())
    } else {
        None
    }
}

/// The players to ask for the art of stream `sink`, in order: the matched
/// instance first, then every instance in name order; none where no instance
/// is matched.
pub open spec fn art_sources(sink: usize, sinks: Seq<usize>, players: Seq<Seq<char>>) -> Seq<
    Seq<char>,
> {
    match matched_player(sink, sinks, players) {
        Some(p) => seq![p] + sorted_texts(players),
        None => seq![],
    }
}

/// Lists the players to ask for the art of stream `sink_id`, in order.
pub fn art_source_order(sink_id: usize, sink_ids: &Vec<usize>, players: &Vec<String>) -> (r: Vec<
    String,
>)
    ensures
        texts(r@) == art_sources(sink_id, sink_ids@, texts(players@)),
{
    let mut out: Vec<String> = Vec::new();
    match match_sink_to_player(sink_id, sink_ids, players) {
        Some(p) => {
            let ghost first = p@;
            out.push(p);
            let ps = sort_texts(players);
            let mut i: usize = 0;
            assert(texts(out@) =~= seq![first] + texts(ps@).subrange(0, 0));
            while i < ps.len()
                invariant
                    i <= ps.len(),
                    texts(out@) == seq![first] + texts(ps@).subrange(0, i as int),
                decreases ps.len() - i,
            {
                let ghost old_out = out@;
                let item = ps[i].clone();
                out.push(item);
                assert(texts(out@) =~= texts(old_out).push(ps@[i as int]@));
                assert(texts(ps@).subrange(0, i as int + 1) =~= texts(ps@).subrange(0, i as int).push(
                    ps@[i as int]@,
                ));
                assert(texts(out@) =~= seq![first] + texts(ps@).subrange(0, i as int + 1));
                i += 1;
            }
            assert(texts(ps@).subrange(0, ps.len() as int) =~= texts(ps@));
        },
        None => {},
    }
    assert(texts(out@) =~= art_sources(sink_id, sink_ids@, texts(players@)));
    out
}

/// The bus names of the player instances of an application, whose name is
/// given in lower case, in their order.
pub open spec fn app_players(names: Seq<Seq<char>>, app_lower: Seq<char>) -> Seq<Seq<char>> {
    names.filter(|s: Seq<char>| is_prefix_of(player_prefix() + app_lower, s))
}

/// Keeps, in order, the bus names of the player instances of the application
/// named `app_lower` (in lower case).
pub fn players_of_lowercase_app(names: &Vec<String>, app_lower: &str) -> (r: Vec<String>)
    ensures
        texts(r@) == app_players(texts(names@), app_lower@),
{
    let pattern = String::from_str("org.mpris.MediaPlayer2.").concat(app_lower);
    let mut out: Vec<String> = Vec::new();
    let mut i: usize = 0;
    while i < names.len()
        invariant
            i <= names.len(),
            pattern@ == player_prefix() + app_lower@,
            texts(out@) == app_players(texts(names@.subrange(0, i as int)), app_lower@),
        decreases names.len() - i,
    {
        let name = &names[i];
        let ghost pre = texts(names@.subrange(0, i as int));
        let ghost next = texts(names@.subrange(0, i as int + 1));
        assert(next.drop_last() =~= pre);
        assert(next.last() == name@);
        let keep = starts_with(name.as_str(), pattern.as_str());
        assert(app_players(next, app_lower@) == if keep {
            app_players(pre, app_lower@).push(name@)
        } else {
            app_players(pre, app_lower@)
        }) by {
            reveal(Seq::filter);
        }
        if keep {
            out.push(name.clone());
            assert(texts(out@) =~= app_players(pre, app_lower@).push(name@));
        } else {
            assert(texts(out@) =~= app_players(pre, app_lower@));
        }
        i += 1;
    }
    assert(names@.subrange(0, names.len() as int) =~= names@);
    out
}

/// Keeps, in order, the bus names of the player instances of the application
/// named `app`, compared in lower case.
pub fn find_players_for_app(names: &Vec<String>, app: &str) -> (r: Vec<String>)
    ensures
        texts(r@) == app_players(texts(names@), lowercase_of(app@)),
{
    let lower = to_lowercase(app);
    players_of_lowercase_app(names, lower.as_str())
}

} // verus!

