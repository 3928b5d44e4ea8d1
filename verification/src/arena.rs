//! The battle-arena game one of the bundled plugins runs: two players, the
//! monsters they introduce and summon, and whose turn it is. The game logic
//! reads battle commands written in square brackets inside chat messages.

use vstd::prelude::*;

use crate::optparse::{find_in, lemma_find_in_range, strs_model};
use crate::strutil;

verus! {

/// Which of the two players is meant.
#[derive(Clone, Copy, PartialEq, Eq, Structural)]
pub enum Pid {
    P1,
    P2,
}

impl Pid {
    /// The opponent of this player.
    fn other(self) -> (r: Pid)
        ensures
            r == (match self {
                Pid::P1 => Pid::P2,
                Pid::P2 => Pid::P1,
            }),
    {
        match self {
            Pid::P1 => Pid::P2,
            Pid::P2 => Pid::P1,
        }
    }
}

/// One player: name, level, and lifepoints (game over when depleted).
pub struct Player {
    name: String,
    level: u8,
    lp: u16,
}

impl Player {
    /// The player's name as a character sequence.
    pub closed spec fn spec_name(&self) -> Seq<char> {
        self.name@
    }

    /// The player's level.
    pub closed spec fn spec_level(&self) -> u8 {
        self.level
    }

    /// The player's lifepoints.
    pub closed spec fn spec_lp(&self) -> u16 {
        self.lp
    }

    /// A fresh player: the given name, level one, five hundred lifepoints.
    fn new(name: String) -> (r: Player)
        ensures
            r.spec_name() == name@,
            r.spec_level() == 1,
            r.spec_lp() == 500,
    {
        Player { name, lp: 500, level: 1 }
    }

    pub fn name(&self) -> (r: &str)
        ensures
            r@ == self.spec_name(),
    {
        self.name.as_str()
    }
}

/// A monster in play: its damage, hitpoints, side, and battlefield row.
struct Unit {
    ad: u16,
    max_hp: u16,
    hp: u16,
    side: Pid,
    row: Row,
}

/// A monster as introduced by its owner: base damage and hitpoints.
struct MonsterDef {
    ad: u16,
    hp: u16,
    owner: Pid,
}

#[derive(Clone, Copy, PartialEq, Eq, Structural)]
enum Row {
    Front,
    Back,
}

impl Unit {
    /// A freshly summoned unit of a monster: full hitpoints, its owner's
    /// side, the chosen row.
    fn new(def: &MonsterDef, row: Row) -> (r: Unit)
        ensures
            r.ad == def.ad,
            r.max_hp == def.hp,
            r.hp == def.hp,
            r.side == def.owner,
            r.row == row,
    {
        Unit { ad: def.ad, max_hp: def.hp, hp: def.hp, side: def.owner, row }
    }
}

/// What the game tells whoever runs the battle: lines to display, and the
/// winner once there is one.
pub struct Response {
    pub lines: Vec<String>,
    pub winrar: Option<Pid>,
}

/// One battle of wits between two players.
pub struct Game {
    p1: Player,
    p2: Player,
    /// Whose turn it is.
    turn: Pid,
    /// Moves left this turn: one in the opening summoner round, three after.
    moves_left: u8,
    /// Number of the current round, starting at one.
    round: u32,
    monster_defs: Vec<(String, MonsterDef)>,
    units: Vec<(String, Unit)>,
}

impl Game {
    pub closed spec fn spec_p1(&self) -> Player {
        self.p1
    }

    pub closed spec fn spec_p2(&self) -> Player {
        self.p2
    }

    pub closed spec fn spec_turn(&self) -> Pid {
        self.turn
    }

    pub closed spec fn spec_round(&self) -> u32 {
        self.round
    }

    pub closed spec fn spec_moves_left(&self) -> u8 {
        self.moves_left
    }

    /// How many monsters have been introduced.
    pub closed spec fn spec_monster_count(&self) -> nat {
        self.monster_defs@.len()
    }

    /// How many units are out on the battlefield.
    pub closed spec fn spec_unit_count(&self) -> nat {
        self.units@.len()
    }

    /// A fresh game: both players at their starting state, player one to
    /// move, one move in the opening summoner round, nothing introduced and
    /// nothing summoned yet.
    pub fn new(p1name: String, p2name: String) -> (r: Game)
        ensures
            r.spec_p1().spec_name() == p1name@,
            r.spec_p2().spec_name() == p2name@,
            r.spec_p1().spec_level() == 1 && r.spec_p2().spec_level() == 1,
            r.spec_p1().spec_lp() == 500 && r.spec_p2().spec_lp() == 500,
            r.spec_turn() == Pid::P1,
            r.spec_moves_left() == 1,
            r.spec_round() == 1,
            r.spec_monster_count() == 0,
            r.spec_unit_count() == 0,
    {
        Game {
            p1: Player::new(p1name),
            p2: Player::new(p2name),
            turn: Pid::P1,
            moves_left: 1,
            round: 1,
            monster_defs: Vec::new(),
            units: Vec::new(),
        }
    }

    /// The player whose turn it is now.
    pub fn current_player(&self) -> (r: &Player)
        ensures
            *r == (match self.spec_turn() {
                Pid::P1 => self.spec_p1(),
                Pid::P2 => self.spec_p2(),
            }),
    {
        self.player_by_pid(self.turn)
    }

    pub fn current_player_pid(&self) -> (r: Pid)
        ensures
            r == self.spec_turn(),
    {
        self.turn
    }

    pub fn player_by_pid(&self, pid: Pid) -> (r: &Player)
        ensures
            *r == (match pid {
                Pid::P1 => self.spec_p1(),
                Pid::P2 => self.spec_p2(),
            }),
    {
        match pid {
            Pid::P1 => &self.p1,
            Pid::P2 => &self.p2,
        }
    }

    pub fn p1(&self) -> (r: &Player)
        ensures
            *r == self.spec_p1(),
    {
        &self.p1
    }

    pub fn p2(&self) -> (r: &Player)
        ensures
            *r == self.spec_p2(),
    {
        &self.p2
    }
}

/// The bracketed commands of a message, in order: for each `[`, the text up
/// to the matching `]`; nothing if some `[` is never closed.
pub open spec fn spec_filter_commands(s: Seq<char>, i: int) -> Option<Seq<Seq<char>>>
    decreases s.len() - i,
    when 0 <= i
    via spec_filter_commands_decreases
{
    match find_in(s, i, s.len() as int, '[') {
        None => Some(Seq::empty()),
        Some(op) => match find_in(s, op + 1, s.len() as int, ']') {
            None => None,
            Some(cl) => match spec_filter_commands(s, cl + 1) {
                None => None,
                Some(rest) => Some(seq![s.subrange(op + 1, cl)] + rest),
            },
        },
    }
}

#[via_fn]
proof fn spec_filter_commands_decreases(s: Seq<char>, i: int) {
    lemma_find_in_range(s, i, s.len() as int, '[');
    if let Some(op) = find_in(s, i, s.len() as int, '[') {
        lemma_find_in_range(s, op + 1, s.len() as int, ']');
    }
}

/// Extract the bracketed commands of a message: the text between each `[`
/// and the next `]`. A `[` that is never closed makes the whole message
/// ill-formed.
pub fn filter_commands(msg: &str) -> (r: Result<Vec<String>, ()>)
    ensures
        r matches Ok(v) ==> spec_filter_commands(msg@, 0) == Some(strs_model(v@)),
        r is Err ==> spec_filter_commands(msg@, 0) is None,
{
    let chars = strutil::str_to_chars(msg);
    let len = chars.len();
    let mut commands: Vec<String> = Vec::new();
    let mut cur: usize = 0;
    proof {
        assert(strs_model(commands@) =~= Seq::<Seq<char>>::empty());
    }
    loop
        invariant
            cur <= len == chars@.len(),
            chars@ == msg@,
            spec_filter_commands(msg@, 0) == (match spec_filter_commands(msg@, cur as int) {
                None => None::<Seq<Seq<char>>>,
                Some(rest) => Some(strs_model(commands@) + rest),
            }),
        decreases len - cur,
    {
        proof {
            lemma_find_in_range(chars@, cur as int, len as int, '[');
        }
        let op = match crate::optparse::find_char_at(&chars, cur, len, '[') {
            None => {
                proof {
                    assert(strs_model(commands@) + Seq::<Seq<char>>::empty() =~= strs_model(
                        commands@,
                    ));
                }
                return Ok(commands);
            },
            Some(op) => op,
        };
        proof {
            lemma_find_in_range(chars@, op + 1 as int, len as int, ']');
        }
        let cl = match crate::optparse::find_char_at(&chars, op + 1, len, ']') {
            None => {
                return Err(());
            },
            Some(cl) => cl,
        };
        let piece = strutil::string_range(&chars, op + 1, cl);
        commands.push(piece);
        proof {
            assert(strs_model(commands@) =~= strs_model(commands@.drop_last()).push(
                msg@.subrange(op + 1 as int, cl as int),
            ));
            if let Some(rest) = spec_filter_commands(msg@, cl + 1 as int) {
                assert(strs_model(commands@.drop_last()) + (seq![
                    msg@.subrange(op + 1 as int, cl as int),
                ] + rest) =~= strs_model(commands@) + rest);
            }
        }
        cur = cl + 1;
    }
}

} // verus!
