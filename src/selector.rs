//! Choosing the media player that drives the surface.

use vstd::prelude::*;
use vstd::string::*;
use crate::text::{is_prefix_of, opt_view, same_text, starts_with, texts};

verus! {

/// Playback state that a media player reports.
#[derive(Clone, Copy, Debug, PartialEq, Eq, Structural)]
pub enum PlaybackStatus {
    Playing,
    Paused,
    Stopped,
    Unknown,
}

/// The status named by a reported status text; any other text is `Unknown`.
pub open spec fn status_named(s: Seq<char>) -> PlaybackStatus {
    if s == "Playing"@ {
        PlaybackStatus::Playing
    } else if s == "Paused"@ {
        PlaybackStatus::Paused
    } else if s == "Stopped"@ {
        PlaybackStatus::Stopped
    } else {
        PlaybackStatus::Unknown
    }
}

/// Reads a status text as reported by a player.
pub fn parse_playback_status(s: &str) -> (r: PlaybackStatus)
    ensures
        r == status_named(s@),
{
    if same_text(s, "Playing") {
        PlaybackStatus::Playing
    } else if same_text(s, "Paused") {
        PlaybackStatus::Paused
    } else if same_text(s, "Stopped") {
        PlaybackStatus::Stopped
    } else {
        PlaybackStatus::Unknown
    }
}

/// A player service found on the bus, with the status it answered (or
/// `Unknown` where it did not answer).
pub struct PlayerCandidate {
    pub name: String,
    pub status: PlaybackStatus,
}

/// Why no player could be chosen.
#[derive(Clone, Copy, Debug, PartialEq, Eq, Structural)]
pub enum SelectError {
    NoPlayerFound,
}

/// The names of the candidates, in order.
pub open spec fn names_of(c: Seq<PlayerCandidate>) -> Seq<Seq<char>> {
    c.map_values(|p: PlayerCandidate| p.name@)
}

/// The name of the first candidate that is playing, if any.
pub open spec fn first_playing(c: Seq<PlayerCandidate>) -> Option<Seq<char>>
    decreases c.len(),
{
    if c.len() == 0 {
        None
    } else if c[0].status == PlaybackStatus::Playing {
        Some(c[0].name@)
    } else {
        first_playing(c.drop_first())
    }
}

/// The player that drives the surface: the first that plays; else the one
/// remembered, if it is still among the candidates; else the first candidate.
pub open spec fn selected_player(c: Seq<PlayerCandidate>, last: Option<Seq<char>>) -> Option<
    Seq<char>,
> {
    match first_playing(c) {
        Some(n) => Some(n),
        None => match last {
            Some(l) if names_of(c).contains(l) => Some(l),
            _ => if c.len() > 0 {
                Some(c[0].name@)
            } else {
                None
            },
        },
    }
}

/// What is remembered after a selection: the player found playing, else what
/// was remembered before.
pub open spec fn remembered_after(c: Seq<PlayerCandidate>, last: Option<Seq<char>>) -> Option<
    Seq<char>,
> {
    match first_playing(c) {
        Some(n) => Some(n),
        None => last,
    }
}

/// Bus-name prefix shared by all media players.
pub open spec fn player_prefix() -> Seq<char> {
    "org.mpris.MediaPlayer2."@
}

/// A bus name that belongs to a media player: it has the player prefix and is
/// not the proxy that forwards to the other players.
pub open spec fn is_player_name(s: Seq<char>) -> bool {
    is_prefix_of(player_prefix(), s) && s != "org.mpris.MediaPlayer2.playerctld"@
}

/// The names, in order, that belong to media players.
pub open spec fn player_names(v: Seq<Seq<char>>) -> Seq<Seq<char>> {
    v.filter(|s: Seq<char>| is_player_name(s))
}

/// Keeps, in order, the bus names that belong to media players.
pub fn media_players(names: &Vec<String>) -> (r: Vec<String>)
    ensures
        texts(r@) == player_names(texts(names@)),
{
    reveal(Seq::filter);
    let mut out: Vec<String> = Vec::new();
    let mut i: usize = 0;
    while i < names.len()
        invariant
            i <= names.len(),
            texts(out@) == player_names(texts(names@.subrange(0, i as int))),
        decreases names.len() - i,
    {
        let name = &names[i];
        let has_prefix = starts_with(name.as_str(), "org.mpris.MediaPlayer2.");
        let is_proxy = same_text(name.as_str(), "org.mpris.MediaPlayer2.playerctld");
        assert(has_prefix == is_prefix_of(player_prefix(), name@));
        assert(is_proxy == (name@ == "org.mpris.MediaPlayer2.playerctld"@));
        let keep = has_prefix && !is_proxy;
        let ghost pre = texts(names@.subrange(0, i as int));
        let ghost next = texts(names@.subrange(0, i as int + 1));
        assert(next.drop_last() =~= pre);
        assert(next.last() == name@);
        assert(keep == is_player_name(name@));
        assert(player_names(next) == if keep {
            player_names(pre).push(name@)
        } else {
            player_names(pre)
        }) by {
            reveal(Seq::filter);
        }
        if keep {
            out.push(name.clone());
            assert(texts(out@) =~= player_names(pre).push(name@));
        } else {
            assert(texts(out@) =~= player_names(pre));
        }
        i += 1;
    }
    assert(names@.subrange(0, names.len() as int) =~= names@);
    out
}

/// The first candidate that plays, at `i`, is the one `first_playing` names.
proof fn lemma_first_playing_at(c: Seq<PlayerCandidate>, i: int)
    requires
        0 <= i < c.len(),
        c[i].status == PlaybackStatus::Playing,
        forall|j: int| 0 <= j < i ==> c[j].status != PlaybackStatus::Playing,
    ensures
        first_playing(c) == Some(c[i].name@),
    decreases i,
{
    if i > 0 {
        lemma_first_playing_at(c.drop_first(), i - 1);
    }
}

/// With no candidate playing, `first_playing` names none.
proof fn lemma_none_playing(c: Seq<PlayerCandidate>)
    requires
        forall|j: int| 0 <= j < c.len() ==> c[j].status != PlaybackStatus::Playing,
    ensures
        first_playing(c) is None,
    decreases c.len(),
{
    if c.len() > 0 {
        lemma_none_playing(c.drop_first());
    }
}

/// When exactly one candidate plays, it is selected and becomes the one
/// remembered, whatever was remembered before.
pub proof fn lemma_sole_playing_selected(
    c: Seq<PlayerCandidate>,
    last: Option<Seq<char>>,
    i: int,
)
    requires
        0 <= i < c.len(),
        c[i].status == PlaybackStatus::Playing,
        forall|j: int| 0 <= j < c.len() && j != i ==> c[j].status != PlaybackStatus::Playing,
    ensures
        selected_player(c, last) == Some(c[i].name@),
        remembered_after(c, last) == Some(c[i].name@),
{
    lemma_first_playing_at(c, i);
}

/// When no candidate plays and the remembered player is still among the
/// candidates, it is selected and the memory is left as it was.
pub proof fn lemma_remembered_selected(c: Seq<PlayerCandidate>, last: Seq<char>)
    requires
        forall|j: int| 0 <= j < c.len() ==> c[j].status != PlaybackStatus::Playing,
        names_of(c).contains(last),
    ensures
        selected_player(c, Some(last)) == Some(last),
        remembered_after(c, Some(last)) == Some(last),
{
    lemma_none_playing(c);
}

/// When no candidate plays and the remembered player (if any) is gone, the
/// first candidate in enumeration order is selected and the memory is left
/// as it was.
pub proof fn lemma_first_candidate_selected(c: Seq<PlayerCandidate>, last: Option<Seq<char>>)
    requires
        c.len() > 0,
        forall|j: int| 0 <= j < c.len() ==> c[j].status != PlaybackStatus::Playing,
        match last {
            Some(l) => !names_of(c).contains(l),
            None => true,
        },
    ensures
        selected_player(c, last) == Some(c[0].name@),
        remembered_after(c, last) == last,
{
    lemma_none_playing(c);
}

/// With no candidates there is nothing to select, and the memory is kept.
pub proof fn lemma_no_candidates(c: Seq<PlayerCandidate>, last: Option<Seq<char>>)
    requires
        c.len() == 0,
    ensures
        selected_player(c, last) is None,
        remembered_after(c, last) == last,
{
}

/// The shared memory of the player last seen playing.
pub struct PlayerSelector {
    pub last_active: Option<String>,
}

impl PlayerSelector {
    /// A selector that remembers no player.
    pub fn new() -> (r: PlayerSelector)
        ensures
            r.last_active is None,
    {
        PlayerSelector { last_active: None }
    }

    /// Picks the player that drives the surface among `candidates`, given in
    /// bus enumeration order, and remembers it when it is playing.
    pub fn select_active(&mut self, candidates: &Vec<PlayerCandidate>) -> (r: Result<
        String,
        SelectError,
    >)
        ensures
            match r {
                Ok(n) => selected_player(candidates@, opt_view(old(self).last_active)) == Some(
                    n@,
                ),
                Err(e) => e == SelectError::NoPlayerFound && selected_player(
                    candidates@,
                    opt_view(old(self).last_active),
                ) is None,
            },
            opt_view(final(self).last_active) == remembered_after(
                candidates@,
                opt_view(old(self).last_active),
            ),
    {
        let mut i: usize = 0;
        assert(candidates@.subrange(0, candidates@.len() as int) =~= candidates@);
        while i < candidates.len()
            invariant
                i <= candidates.len(),
                *self == *old(self),
                first_playing(candidates@) == first_playing(
                    candidates@.subrange(i as int, candidates@.len() as int),
                ),
            decreases candidates.len() - i,
        {
            let rest = Ghost(candidates@.subrange(i as int, candidates@.len() as int));
            assert(rest@.drop_first() =~= candidates@.subrange(
                i as int + 1,
                candidates@.len() as int,
            ));
            if candidates[i].status == PlaybackStatus::Playing {
                let name = candidates[i].name.clone();
                self.last_active = Some(candidates[i].name.clone());
                return Ok(name);
            }
            i += 1;
        }
        assert(first_playing(candidates@.subrange(i as int, candidates@.len() as int)) is None);
        let ghost names = names_of(candidates@);
        match &self.last_active {
            Some(last) => {
                let mut j: usize = 0;
                while j < candidates.len()
                    invariant
                        j <= candidates.len(),
                        *self == *old(self),
                        self.last_active == Some(*last),
                        first_playing(candidates@) is None,
                        names == names_of(candidates@),
                        forall|k: int| 0 <= k < j ==> names[k] != last@,
                    decreases candidates.len() - j,
                {
                    if candidates[j].name == *last {
                        assert(names[j as int] == last@);
                        assert(names.contains(last@));
                        assert(opt_view(old(self).last_active) == Some(last@));
                        assert(first_playing(candidates@) is None);
                        return Ok(last.clone());
                    }
                    j += 1;
                }
                assert(!names.contains(last@));
            },
            None => {},
        }
        if candidates.len() == 0 {
            Err(SelectError::NoPlayerFound)
        } else {
            Ok(candidates[0].name.clone())
        }
    }
}

} // verus!
