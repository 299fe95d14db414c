use webgame_server::board::Board;
use webgame_server::protocol::{Character, Team, Turn};

fn words(n: usize) -> Vec<String> {
    (0..n).map(|i| format!("word{}", i)).collect()
}

fn count(cs: &[Character], c: Character) -> usize {
    cs.iter().filter(|x| **x == c).count()
}

#[test]
fn deck_favours_the_starting_team() {
    let red = Board::deck(Team::Red);
    assert_eq!(red.len(), 25);
    assert_eq!(count(&red, Character::RedAgent), 9);
    assert_eq!(count(&red, Character::BlueAgent), 8);
    assert_eq!(count(&red, Character::Bystander), 7);
    assert_eq!(count(&red, Character::Assassin), 1);
    let blue = Board::deck(Team::Blue);
    assert_eq!(count(&blue, Character::RedAgent), 8);
    assert_eq!(count(&blue, Character::BlueAgent), 9);
}

#[test]
fn new_board_uses_distinct_words_and_full_deck() {
    let w = words(40);
    for _ in 0..20 {
        let b = Board::new(&w);
        let tiles = b.tiles(true);
        assert_eq!(tiles.len(), 25);
        let mut seen: Vec<&String> = tiles.iter().map(|t| &t.codeword).collect();
        seen.sort();
        seen.dedup();
        assert_eq!(seen.len(), 25);
        assert!(tiles.iter().all(|t| w.contains(&t.codeword) && !t.spotted));
        let chars: Vec<Character> = tiles.iter().map(|t| t.character).collect();
        let (red, blue) = if b.initial_turn() == Turn::RedSpymasterThinking {
            (9, 8)
        } else {
            assert_eq!(b.initial_turn(), Turn::BlueSpymasterThinking);
            (8, 9)
        };
        assert_eq!(count(&chars, Character::RedAgent), red);
        assert_eq!(count(&chars, Character::BlueAgent), blue);
        assert_eq!(count(&chars, Character::Assassin), 1);
    }
}

#[test]
fn distinct_words_give_distinct_codewords() {
    let w = words(25);
    let b = Board::new(&w);
    let mut seen: Vec<String> = b.tiles(false).into_iter().map(|t| t.codeword).collect();
    seen.sort();
    let mut all = w.clone();
    all.sort();
    assert_eq!(seen, all);
}

#[test]
fn redaction_hides_unspotted_without_reveal() {
    let w = words(25);
    let picks: Vec<usize> = (0..25).rev().collect();
    let deck = Board::deck(Team::Blue);
    let b = Board::from_parts(&w, &picks, &deck, Team::Blue);
    let hidden = b.tiles(false);
    assert_eq!(hidden.len(), 25);
    assert_eq!(hidden[0].codeword, "word24");
    assert_eq!(hidden[24].codeword, "word0");
    assert!(hidden.iter().all(|t| t.character == Character::Unknown));
    let shown = b.tiles(true);
    let chars: Vec<Character> = shown.iter().map(|t| t.character).collect();
    assert_eq!(chars, deck);
    assert_eq!(b.initial_turn(), Turn::BlueSpymasterThinking);
}

#[test]
fn boards_are_shuffled() {
    let w = words(25);
    let mut differs = false;
    for _ in 0..20 {
        let b = Board::new(&w);
        let team = if b.initial_turn() == Turn::RedSpymasterThinking { Team::Red } else { Team::Blue };
        let chars: Vec<Character> = b.tiles(true).iter().map(|t| t.character).collect();
        if chars != Board::deck(team) {
            differs = true;
        }
    }
    assert!(differs);
}
