//! The board: codeword tiles with hidden characters, how they are dealt, and how a
//! viewer sees them.

use vstd::prelude::*;

use crate::protocol::{BOARD_TILES, Character, Team, Tile, Turn};
use crate::random::{coin_flip, sample_indices, shuffle_characters};

verus! {

/// How a tile looks to a viewer: its character stays visible once spotted or when the
/// viewer may see everything, and is `Unknown` otherwise.
pub open spec fn redact_tile(t: Tile, reveal: bool) -> Tile {
    if t.spotted || reveal {
        t
    } else {
        Tile { codeword: t.codeword, character: Character::Unknown, spotted: t.spotted }
    }
}

pub open spec fn spec_initial_turn(team: Team) -> Turn {
    match team {
        Team::Red => Turn::RedSpymasterThinking,
        Team::Blue => Turn::BlueSpymasterThinking,
    }
}

/// Number of agents of `team` on a board that `starting` opens: the starting team has
/// one more agent to find.
pub open spec fn agent_count(team: Team, starting: Team) -> nat {
    if team == starting {
        9
    } else {
        8
    }
}

/// The characters of a board before they are shuffled.
pub open spec fn character_deck(starting: Team) -> Seq<Character> {
    Seq::new(7, |_i: int| Character::Bystander) + Seq::new(
        agent_count(Team::Blue, starting),
        |_i: int| Character::BlueAgent,
    ) + Seq::new(agent_count(Team::Red, starting), |_i: int| Character::RedAgent) + seq![
        Character::Assassin,
    ]
}

pub open spec fn stored_character(c: Character) -> bool {
    c != Character::Unknown
}

proof fn lemma_deck_stored(starting: Team)
    ensures
        forall|c: Character| character_deck(starting).contains(c) ==> stored_character(c),
{
    let d = character_deck(starting);
    assert forall|k: int| 0 <= k < d.len() implies stored_character(#[trigger] d[k]) by {}
}

/// A grid of codeword tiles with hidden characters and a starting team.
pub struct Board {
    tiles: Vec<Tile>,
    starting_team: Team,
}

impl Board {
    pub closed spec fn spec_tiles(&self) -> Seq<Tile> {
        self.tiles@
    }

    pub closed spec fn spec_starting_team(&self) -> Team {
        self.starting_team
    }

    /// A full board, and no stored tile is `Unknown`.
    pub open spec fn wf(&self) -> bool {
        &&& self.spec_tiles().len() == BOARD_TILES
        &&& forall|i: int|
            0 <= i < self.spec_tiles().len() ==> stored_character(
                #[trigger] self.spec_tiles()[i].character,
            )
    }

    /// Builds the unshuffled characters of a board that `starting` opens.
    pub fn deck(starting: Team) -> (r: Vec<Character>)
        ensures
            r@ == character_deck(starting),
    {
        let (blue_agents, red_agents): (usize, usize) = match starting {
            Team::Red => (8, 9),
            Team::Blue => (9, 8),
        };
        let mut r: Vec<Character> = Vec::new();
        let mut i: usize = 0;
        while i < 7
            invariant
                i <= 7,
                r@ == Seq::new(i as nat, |_i: int| Character::Bystander),
            decreases 7 - i,
        {
            r.push(Character::Bystander);
            i = i + 1;
            assert(r@ =~= Seq::new(i as nat, |_i: int| Character::Bystander));
        }
        let ghost base = r@;
        i = 0;
        while i < blue_agents
            invariant
                i <= blue_agents,
                r@ == base + Seq::new(i as nat, |_i: int| Character::BlueAgent),
            decreases blue_agents - i,
        {
            r.push(Character::BlueAgent);
            i = i + 1;
            assert(r@ =~= base + Seq::new(i as nat, |_i: int| Character::BlueAgent));
        }
        let ghost base = r@;
        i = 0;
        while i < red_agents
            invariant
                i <= red_agents,
                r@ == base + Seq::new(i as nat, |_i: int| Character::RedAgent),
            decreases red_agents - i,
        {
            r.push(Character::RedAgent);
            i = i + 1;
            assert(r@ =~= base + Seq::new(i as nat, |_i: int| Character::RedAgent));
        }
        r.push(Character::Assassin);
        assert(r@ =~= character_deck(starting));
        r
    }

    /// Lays out a board: tile `i` shows the word at `picks[i]` and hides
    /// `characters[i]`; no tile is spotted yet.
    pub fn from_parts(
        words: &Vec<String>,
        picks: &Vec<usize>,
        characters: &Vec<Character>,
        starting_team: Team,
    ) -> (r: Board)
        requires
            picks@.len() == BOARD_TILES,
            picks@.len() <= characters@.len(),
            forall|i: int| 0 <= i < picks@.len() ==> #[trigger] picks@[i] < words@.len(),
            forall|i: int|
                0 <= i < characters@.len() ==> stored_character(#[trigger] characters@[i]),
        ensures
            r.wf(),
            r.spec_starting_team() == starting_team,
            r.spec_tiles().len() == picks@.len(),
            forall|i: int|
                0 <= i < picks@.len() ==> #[trigger] r.spec_tiles()[i] == (Tile {
                    codeword: words@[picks@[i] as int],
                    character: characters@[i],
                    spotted: false,
                }),
    {
        let mut tiles: Vec<Tile> = Vec::new();
        let mut i: usize = 0;
        while i < picks.len()
            invariant
                i <= picks@.len(),
                picks@.len() <= characters@.len(),
                forall|k: int| 0 <= k < picks@.len() ==> #[trigger] picks@[k] < words@.len(),
                tiles@.len() == i,
                forall|k: int|
                    0 <= k < i ==> #[trigger] tiles@[k] == (Tile {
                        codeword: words@[picks@[k] as int],
                        character: characters@[k],
                        spotted: false,
                    }),
            decreases picks@.len() - i,
        {
            let word = words[picks[i]].clone();
            tiles.push(Tile { codeword: word, character: characters[i], spotted: false });
            i = i + 1;
        }
        Board { tiles, starting_team }
    }

    /// Creates a new board from a word list: a random starting team, the characters
    /// of that team's deck in random order, and words chosen at random from distinct
    /// places of the list.
    pub fn new(words: &Vec<String>) -> (r: Board)
        requires
            words@.len() >= BOARD_TILES,
        ensures
            r.wf(),
            forall|i: int|
                0 <= i < BOARD_TILES ==> !(#[trigger] r.spec_tiles()[i]).spotted && exists|
                    j: int,
                | 0 <= j < words@.len() && r.spec_tiles()[i].codeword == words@[j],
            r.spec_tiles().map_values(|t: Tile| t.character).to_multiset() == character_deck(
                r.spec_starting_team(),
            ).to_multiset(),
            (forall|a: int, b: int| 0 <= a < b < words@.len() ==> words@[a] != words@[b]) ==> forall|
                i: int,
                k: int,
            | 0 <= i < k < BOARD_TILES ==> r.spec_tiles()[i].codeword != r.spec_tiles()[k].codeword,
    {
        let starting_team = if coin_flip() {
            Team::Red
        } else {
            Team::Blue
        };
        let mut characters = Board::deck(starting_team);
        let ghost deck = characters@;
        shuffle_characters(&mut characters);
        proof {
            assert forall|i: int| 0 <= i < characters@.len() implies stored_character(
                #[trigger] characters@[i],
            ) by {
                vstd::seq_lib::to_multiset_contains(characters@, characters@[i]);
                vstd::seq_lib::to_multiset_contains(deck, characters@[i]);
                lemma_deck_stored(starting_team);
            }
        }
        let picks = sample_indices(words.len(), BOARD_TILES);
        let r = Board::from_parts(words, &picks, &characters, starting_team);
        proof {
            assert forall|i: int| 0 <= i < BOARD_TILES implies !(
            #[trigger] r.spec_tiles()[i]).spotted && exists|j: int|
                0 <= j < words@.len() && r.spec_tiles()[i].codeword == words@[j] by {
                assert(picks@[i] < words@.len());
                assert(r.spec_tiles()[i].codeword == words@[picks@[i] as int]);
            }
            assert(r.spec_tiles().map_values(|t: Tile| t.character) =~= characters@);
            if forall|a: int, b: int| 0 <= a < b < words@.len() ==> words@[a] != words@[b] {
                assert forall|i: int, k: int| 0 <= i < k < BOARD_TILES implies r.spec_tiles()[i].codeword
                    != r.spec_tiles()[k].codeword by {
                    let pi = picks@[i] as int;
                    let pk = picks@[k] as int;
                    assert(r.spec_tiles()[i].codeword == words@[pi]);
                    assert(r.spec_tiles()[k].codeword == words@[pk]);
                    assert(pi != pk);
                    if pi < pk {
                        assert(words@[pi] != words@[pk]);
                    } else {
                        assert(words@[pk] != words@[pi]);
                    }
                }
            }
        }
        r
    }

    /// Tiles as a viewer sees them: with `reveal`, every character; without it, only
    /// those of spotted tiles.
    pub fn tiles(&self, reveal: bool) -> (r: Vec<Tile>)
        ensures
            r@.len() == self.spec_tiles().len(),
            forall|i: int|
                0 <= i < r@.len() ==> #[trigger] r@[i] == redact_tile(
                    self.spec_tiles()[i],
                    reveal,
                ),
    {
        let mut r: Vec<Tile> = Vec::new();
        let mut i: usize = 0;
        while i < self.tiles.len()
            invariant
                i <= self.tiles@.len(),
                r@.len() == i,
                forall|k: int|
                    0 <= k < i ==> #[trigger] r@[k] == redact_tile(self.tiles@[k], reveal),
            decreases self.tiles@.len() - i,
        {
            let mut tile = self.tiles[i].clone();
            if !(tile.spotted || reveal) {
                tile.character = Character::Unknown;
            }
            r.push(tile);
            i = i + 1;
        }
        r
    }

    /// The first turn once play starts: the starting team's spymaster thinks.
    pub fn initial_turn(&self) -> (r: Turn)
        ensures
            r == spec_initial_turn(self.spec_starting_team()),
    {
        match self.starting_team {
            Team::Red => Turn::RedSpymasterThinking,
            Team::Blue => Turn::BlueSpymasterThinking,
        }
    }
}

} // verus!
