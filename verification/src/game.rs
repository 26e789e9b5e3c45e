//! Game definitions and live game state.
//!
//! `GameData` is the immutable scoreboard vocabulary of a session: a duration
//! and an ordered table of up to 256 score points, whose position in the
//! table is the wire identifier used by scoring packets. `GameState` is the
//! mutable per-session state: per-team scoring accumulators, the game clock
//! and the pause/end flags, together with the transition rules that guard
//! every mutation.

use vstd::prelude::*;
use std::collections::HashMap;

verus! {

use vstd::bytes::spec_u16_from_le_bytes;
use crate::packet::{
    PacketReader, PacketWriter, Readable, Writable, enc_u16, dec_u16, enc_i8, enc_text, dec_text,
    text_fits, lemma_u16_round_trip, lemma_i8_round_trip, lemma_text_round_trip,
};
use crate::session_manager::Team;

broadcast use vstd::std_specs::hash::group_hash_axioms;

/// The score-point table of a game never exceeds this many entries; the codec
/// refuses to decode a table with one more.
pub const MAX_SCORE_POINTS: usize = 256;

// ---------------------------------------------------------------------------
// GameDuration
// ---------------------------------------------------------------------------

/// How long a game runs, in seconds. Encoded as one 16-bit value.
#[derive(Clone, Copy, Debug, PartialEq, Eq, Structural)]
pub struct GameDuration {
    pub secs: u16,
}

impl GameDuration {
    pub fn from_min(min: u16) -> (r: Self)
        requires
            min <= u16::MAX / 60,
        ensures
            r.secs == min * 60,
    {
        GameDuration { secs: min * 60 }
    }
}

impl View for GameDuration {
    type V = GameDuration;

    open spec fn view(&self) -> GameDuration {
        *self
    }
}

pub open spec fn enc_game_duration(d: GameDuration) -> Seq<u8> {
    enc_u16(d.secs)
}

pub open spec fn dec_game_duration(s: Seq<u8>) -> Option<(GameDuration, int)> {
    match dec_u16(s) {
        Some((v, n)) => Some((GameDuration { secs: v }, n)),
        None => None,
    }
}

impl Writable for GameDuration {
    open spec fn spec_enc(&self) -> Seq<u8> {
        enc_game_duration(*self)
    }

    fn write(self, writer: &mut PacketWriter) {
        writer.write(self.secs);
    }
}

impl Readable for GameDuration {
    open spec fn spec_dec(s: Seq<u8>) -> Option<(GameDuration, int)> {
        dec_game_duration(s)
    }

    fn read(reader: &mut PacketReader) -> (r: Option<Self>) {
        match reader.read() {
            Some(secs) => Some(GameDuration { secs }),
            None => None,
        }
    }
}

// ---------------------------------------------------------------------------
// ScorePoint
// ---------------------------------------------------------------------------

/// One named, categorized, point-valued scoring opportunity.
#[derive(Debug, PartialEq)]
pub struct ScorePoint {
    pub name: String,
    pub category: String,
    pub points: i8,
}

/// The abstract form of a score point: its texts as character sequences.
pub struct ScorePointModel {
    pub name: Seq<char>,
    pub category: Seq<char>,
    pub points: i8,
}

impl ScorePointModel {
    /// Both texts fit the wire's length prefix; true of every real string.
    pub open spec fn wf(self) -> bool {
        text_fits(self.name) && text_fits(self.category)
    }
}

impl View for ScorePoint {
    type V = ScorePointModel;

    open spec fn view(&self) -> ScorePointModel {
        ScorePointModel { name: self.name@, category: self.category@, points: self.points }
    }
}

impl Clone for ScorePoint {
    fn clone(&self) -> (res: Self)
        ensures
            res == *self,
    {
        ScorePoint {
            name: self.name.clone(),
            category: self.category.clone(),
            points: self.points,
        }
    }
}

pub open spec fn enc_score_point(m: ScorePointModel) -> Seq<u8> {
    enc_text(m.name) + enc_text(m.category) + enc_i8(m.points)
}

pub open spec fn dec_score_point(s: Seq<u8>) -> Option<(ScorePointModel, int)> {
    match dec_text(s) {
        None => None,
        Some((name, a)) => match dec_text(s.skip(a)) {
            None => None,
            Some((category, b)) => match crate::packet::dec_i8(s.skip(a + b)) {
                None => None,
                Some((points, c)) => Some(
                    (ScorePointModel { name, category, points }, a + b + c),
                ),
            },
        },
    }
}

/// A decoded score point consumes at least its two length prefixes and the
/// point value, and never more than the buffer holds.
pub proof fn lemma_dec_score_point_bounds(s: Seq<u8>)
    ensures
        dec_score_point(s) matches Some((p, n)) ==> 17 <= n <= s.len(),
{
    crate::packet::lemma_dec_text_bounds(s);
    if dec_text(s) is Some {
        let tup = dec_text(s)->0;
        let a = tup.1;
        crate::packet::lemma_dec_text_bounds(s.skip(a));
    }
}

impl Writable for ScorePoint {
    open spec fn spec_enc(&self) -> Seq<u8> {
        enc_score_point(self@)
    }

    fn write(self, writer: &mut PacketWriter) {
        let ghost m = self@;
        writer.write(self.name);
        writer.write(self.category);
        writer.write(self.points);
        proof {
            assert(final(writer)@ =~= old(writer)@ + enc_score_point(m));
        }
    }
}

impl Readable for ScorePoint {
    open spec fn spec_dec(s: Seq<u8>) -> Option<(ScorePointModel, int)> {
        dec_score_point(s)
    }

    fn read(reader: &mut PacketReader) -> (r: Option<Self>) {
        let ghost s = old(reader).remaining();
        let name: String = match reader.read() {
            Some(v) => v,
            None => {
                return None;
            },
        };
        let ghost a = s.len() - reader.remaining().len();
        let category: String = match reader.read() {
            Some(v) => v,
            None => {
                return None;
            },
        };
        let ghost b = (s.len() - a) - reader.remaining().len();
        proof {
            assert(s.skip(a as int).skip(b as int) =~= s.skip(a as int + b as int));
        }
        let points: i8 = match reader.read() {
            Some(v) => v,
            None => {
                return None;
            },
        };
        proof {
            assert(s.skip(a as int + b as int).skip(1) =~= s.skip(a as int + b as int + 1));
        }
        Some(ScorePoint { name, category, points })
    }
}

// ---------------------------------------------------------------------------
// GameData
// ---------------------------------------------------------------------------

/// The immutable game definition of a session.
#[derive(Debug, PartialEq)]
pub struct GameData {
    pub duration: GameDuration,
    pub score_points: Vec<ScorePoint>,
}

/// The abstract form of a game definition.
pub struct GameDataModel {
    pub duration: GameDuration,
    pub score_points: Seq<ScorePointModel>,
}

impl GameDataModel {
    /// The table fits the codec's cap and every entry's texts fit the wire.
    pub open spec fn wf(self) -> bool {
        &&& self.score_points.len() <= MAX_SCORE_POINTS
        &&& forall|i: int|
            0 <= i < self.score_points.len() ==> #[trigger] self.score_points[i].wf()
    }
}

impl View for GameData {
    type V = GameDataModel;

    open spec fn view(&self) -> GameDataModel {
        GameDataModel {
            duration: self.duration,
            score_points: self.score_points@.map_values(|p: ScorePoint| p@),
        }
    }
}

impl Clone for GameData {
    fn clone(&self) -> (res: Self)
        ensures
            res@ == self@,
    {
        let sp = self.score_points.clone();
        proof {
            assert forall|i: int| 0 <= i < sp@.len() implies sp@[i] == self.score_points@[i] by {
                assert(vstd::pervasive::cloned::<ScorePoint>(self.score_points@[i], sp@[i]));
            }
            assert(sp@ =~= self.score_points@);
        }
        GameData { duration: self.duration, score_points: sp }
    }
}

/// The concatenated encodings of a score-point table, in order.
pub open spec fn enc_score_points(ps: Seq<ScorePointModel>) -> Seq<u8>
    decreases ps.len(),
{
    if ps.len() == 0 {
        Seq::empty()
    } else {
        enc_score_point(ps[0]) + enc_score_points(ps.drop_first())
    }
}

/// Decodes score points until the bytes are exhausted; fails as soon as one
/// entry is malformed.
pub open spec fn dec_score_points(s: Seq<u8>) -> Option<Seq<ScorePointModel>>
    decreases s.len(),
{
    if s.len() == 0 {
        Some(Seq::empty())
    } else {
        match dec_score_point(s) {
            None => None,
            Some((p, n)) => if 1 <= n <= s.len() {
                match dec_score_points(s.skip(n)) {
                    None => None,
                    Some(ps) => Some(seq![p] + ps),
                }
            } else {
                None
            },
        }
    }
}

pub open spec fn enc_game_data(m: GameDataModel) -> Seq<u8> {
    enc_game_duration(m.duration) + enc_score_points(m.score_points)
}

/// Decodes a whole game definition from the entire remaining buffer: the
/// duration, then score points until exhaustion. A table of more than
/// `MAX_SCORE_POINTS` entries refuses the whole structure.
pub open spec fn dec_game_data(s: Seq<u8>) -> Option<GameDataModel> {
    if s.len() < 2 {
        None
    } else {
        let duration = GameDuration { secs: spec_u16_from_le_bytes(s.take(2)) };
        match dec_score_points(s.skip(2)) {
            None => None,
            Some(ps) => if ps.len() <= MAX_SCORE_POINTS {
                Some(GameDataModel { duration, score_points: ps })
            } else {
                None
            },
        }
    }
}

impl Writable for GameData {
    open spec fn spec_enc(&self) -> Seq<u8> {
        enc_game_data(self@)
    }

    fn write(self, writer: &mut PacketWriter) {
        let ghost target = old(writer)@ + enc_game_data(self@);
        let ghost ps = self@.score_points;
        writer.write(self.duration);
        let points = self.score_points;
        let n = points.len();
        let mut i: usize = 0;
        proof {
            assert(ps =~= points@.map_values(|p: ScorePoint| p@));
            assert(ps.skip(0) =~= ps);
        }
        while i < n
            invariant
                i <= n,
                n == points@.len(),
                ps == points@.map_values(|p: ScorePoint| p@),
                writer@ + enc_score_points(ps.skip(i as int)) == target,
            decreases n - i,
        {
            let ghost before = writer@;
            writer.write(points[i].clone());
            i += 1;
            proof {
                assert(ps.skip(i - 1)[0] == ps[i - 1]);
                assert(ps.skip(i - 1).drop_first() =~= ps.skip(i as int));
                assert(writer@ + enc_score_points(ps.skip(i as int)) =~= before + enc_score_points(
                    ps.skip(i - 1),
                ));
            }
        }
        proof {
            assert(ps.skip(n as int) =~= Seq::empty());
            assert(writer@ + enc_score_points(ps.skip(n as int)) =~= writer@);
        }
    }
}

impl GameData {
    /// Decodes a game definition from everything that remains in the reader.
    #[verifier::loop_isolation(false)]
    pub fn read(reader: &mut PacketReader) -> (r: Option<GameData>)
        requires
            old(reader).wf(),
        ensures
            final(reader).wf(),
            final(reader).buf@ == old(reader).buf@,
            match dec_game_data(old(reader).remaining()) {
                Some(m) => r matches Some(gd) && gd@ == m && final(reader).remaining().len() == 0,
                None => r is None,
            },
    {
        let ghost s = old(reader).remaining();
        let duration: GameDuration = match reader.read() {
            Some(v) => v,
            None => {
                return None;
            },
        };
        let ghost body = s.skip(2);
        let mut score_points: Vec<ScorePoint> = Vec::new();
        proof {
            assert(score_points@.map_values(|p: ScorePoint| p@) =~= Seq::<
                ScorePointModel,
            >::empty());
        }
        while reader.has_next()
            invariant
                reader.wf(),
                reader.buf@ == old(reader).buf@,
                score_points@.len() <= MAX_SCORE_POINTS,
                match dec_score_points(reader.remaining()) {
                    Some(tail) => dec_score_points(body) == Some(
                        score_points@.map_values(|p: ScorePoint| p@) + tail,
                    ),
                    None => dec_score_points(body) is None,
                },
            decreases reader.remaining().len(),
        {
            let ghost rem0 = reader.remaining();
            proof {
                lemma_dec_score_point_bounds(rem0);
            }
            if score_points.len() == MAX_SCORE_POINTS {
                proof {
                    if dec_score_points(rem0) is Some {
                        let tail = dec_score_points(rem0)->0;
                        assert(tail.len() >= 1);
                    }
                }
                return None;
            }
            let point: ScorePoint = match reader.read() {
                Some(v) => v,
                None => {
                    return None;
                },
            };
            let ghost prev_view = score_points@;
            score_points.push(point);
            proof {
                let acc = score_points@.map_values(|p: ScorePoint| p@);
                let prev = prev_view.map_values(|p: ScorePoint| p@);
                assert(acc =~= prev.push(point@));
                if dec_score_points(reader.remaining()) is Some {
                    let tail = dec_score_points(reader.remaining())->0;
                    assert(prev + (seq![point@] + tail) =~= acc + tail);
                }
            }
        }
        proof {
            let acc = score_points@.map_values(|p: ScorePoint| p@);
            assert(reader.remaining().len() == 0);
            assert(dec_score_points(reader.remaining()) == Some(Seq::<ScorePointModel>::empty()));
            assert(acc + Seq::<ScorePointModel>::empty() =~= acc);
        }
        Some(GameData { duration, score_points })
    }
}

// ---------------------------------------------------------------------------
// Round-trip facts about the game-data encodings.
// ---------------------------------------------------------------------------

/// An encoded score point, followed by anything, decodes back to itself.
pub proof fn lemma_score_point_round_trip(m: ScorePointModel, rest: Seq<u8>)
    requires
        m.wf(),
    ensures
        dec_score_point(enc_score_point(m) + rest) == Some(
            (m, enc_score_point(m).len() as int),
        ),
{
    let s = enc_score_point(m) + rest;
    let a = enc_text(m.name).len() as int;
    let b = enc_text(m.category).len() as int;
    lemma_text_round_trip(m.name, enc_text(m.category) + enc_i8(m.points) + rest);
    assert(s =~= enc_text(m.name) + (enc_text(m.category) + enc_i8(m.points) + rest));
    lemma_text_round_trip(m.category, enc_i8(m.points) + rest);
    assert(s.skip(a) =~= enc_text(m.category) + (enc_i8(m.points) + rest));
    lemma_i8_round_trip(m.points, rest);
    assert(s.skip(a + b) =~= enc_i8(m.points) + rest);
}

/// Every score point in a table is well formed.
pub open spec fn score_points_wf(ps: Seq<ScorePointModel>) -> bool {
    forall|i: int| 0 <= i < ps.len() ==> #[trigger] ps[i].wf()
}

/// An encoded score-point table decodes back to itself exactly.
pub proof fn lemma_score_points_round_trip(ps: Seq<ScorePointModel>)
    requires
        score_points_wf(ps),
    ensures
        dec_score_points(enc_score_points(ps)) == Some(ps),
    decreases ps.len(),
{
    if ps.len() == 0 {
    } else {
        let s = enc_score_points(ps);
        let head = enc_score_point(ps[0]);
        let tail = enc_score_points(ps.drop_first());
        lemma_score_point_round_trip(ps[0], tail);
        assert(head.len() >= 17) by {
            crate::packet::lemma_enc_len_facts();
        }
        lemma_dec_score_point_bounds(s);
        assert(s.skip(head.len() as int) =~= tail);
        assert(score_points_wf(ps.drop_first())) by {
            assert(forall|i: int|
                0 <= i < ps.drop_first().len() ==> ps.drop_first()[i] == ps[i + 1]);
        }
        lemma_score_points_round_trip(ps.drop_first());
        assert(seq![ps[0]] + ps.drop_first() =~= ps);
    }
}

/// Round trip: encoding a well-formed game definition and decoding the bytes
/// yields the same definition.
pub proof fn lemma_game_data_round_trip(m: GameDataModel)
    requires
        m.wf(),
    ensures
        dec_game_data(enc_game_data(m)) == Some(m),
{
    let s = enc_game_data(m);
    crate::packet::lemma_enc_len_facts();
    lemma_u16_round_trip(m.duration.secs, enc_score_points(m.score_points));
    assert(dec_u16(s) == Some((m.duration.secs, 2int)));
    assert(s.skip(2) =~= enc_score_points(m.score_points));
    lemma_score_points_round_trip(m.score_points);
}

/// A table of more than `MAX_SCORE_POINTS` well-formed entries encodes, but
/// its encoding is refused by the decoder.
pub proof fn lemma_game_data_overlong(m: GameDataModel)
    requires
        score_points_wf(m.score_points),
        m.score_points.len() > MAX_SCORE_POINTS,
    ensures
        dec_game_data(enc_game_data(m)) is None,
{
    let s = enc_game_data(m);
    crate::packet::lemma_enc_len_facts();
    lemma_u16_round_trip(m.duration.secs, enc_score_points(m.score_points));
    assert(s.skip(2) =~= enc_score_points(m.score_points));
    lemma_score_points_round_trip(m.score_points);
}

/// An encoded score point truncated anywhere before its end fails to
/// decode: a cut length prefix, a text shorter than declared, or a missing
/// point value.
pub proof fn lemma_score_point_truncation(m: ScorePointModel, k: int)
    requires
        m.wf(),
        0 <= k < enc_score_point(m).len(),
    ensures
        dec_score_point(enc_score_point(m).take(k)) is None,
{
    crate::packet::lemma_enc_len_facts();
    let e1 = enc_text(m.name);
    let e2 = enc_text(m.category);
    let e3 = enc_i8(m.points);
    let s = enc_score_point(m).take(k);
    if k < e1.len() {
        assert(s =~= e1.take(k));
        crate::packet::lemma_text_truncation(m.name, k);
    } else {
        let k1 = k - e1.len();
        assert(s =~= e1 + (e2 + e3).take(k1));
        lemma_text_round_trip(m.name, (e2 + e3).take(k1));
        assert(s.skip(e1.len() as int) =~= (e2 + e3).take(k1));
        if k1 < e2.len() {
            assert((e2 + e3).take(k1) =~= e2.take(k1));
            crate::packet::lemma_text_truncation(m.category, k1);
        } else {
            let k2 = k1 - e2.len();
            assert(k2 == 0);
            assert((e2 + e3).take(k1) =~= e2 + e3.take(0));
            lemma_text_round_trip(m.category, e3.take(0));
            assert((e2 + e3).take(k1).skip(e2.len() as int) =~= e3.take(0));
            assert(e3.take(0).len() == 0);
        }
    }
}

/// A truncated encoding of a score-point table decodes, when it decodes at
/// all, to a strict prefix of the table: the entries cut at an entry
/// boundary, never an altered or invented entry.
pub proof fn lemma_score_points_truncation(ps: Seq<ScorePointModel>, k: int)
    requires
        score_points_wf(ps),
        0 <= k < enc_score_points(ps).len(),
    ensures
        match dec_score_points(enc_score_points(ps).take(k)) {
            None => true,
            Some(qs) => qs.len() < ps.len() && qs == ps.take(qs.len() as int),
        },
    decreases ps.len(),
{
    crate::packet::lemma_enc_len_facts();
    let head = enc_score_point(ps[0]);
    let tail = enc_score_points(ps.drop_first());
    let s = enc_score_points(ps).take(k);
    assert(head.len() >= 17);
    if k == 0 {
        assert(s =~= Seq::<u8>::empty());
        assert(Seq::<ScorePointModel>::empty() =~= ps.take(0));
    } else if k < head.len() {
        assert(s =~= head.take(k));
        lemma_score_point_truncation(ps[0], k);
    } else {
        let k1 = k - head.len();
        assert(s =~= head + tail.take(k1));
        lemma_score_point_round_trip(ps[0], tail.take(k1));
        lemma_dec_score_point_bounds(s);
        assert(s.skip(head.len() as int) =~= tail.take(k1));
        assert(score_points_wf(ps.drop_first())) by {
            assert(forall|i: int|
                0 <= i < ps.drop_first().len() ==> ps.drop_first()[i] == ps[i + 1]);
        }
        lemma_score_points_truncation(ps.drop_first(), k1);
        if dec_score_points(tail.take(k1)) is Some {
            let qs1 = dec_score_points(tail.take(k1))->0;
            let qs = seq![ps[0]] + qs1;
            assert(dec_score_points(s) == Some(qs));
            assert(qs1 == ps.drop_first().take(qs1.len() as int));
            assert(qs =~= ps.take(qs.len() as int));
        }
    }
}

/// A truncated encoding of a game definition decodes, when it decodes at
/// all, to the same duration with the score-point table cut to a strict
/// prefix.
pub proof fn lemma_game_data_truncation(m: GameDataModel, k: int)
    requires
        m.wf(),
        0 <= k < enc_game_data(m).len(),
    ensures
        match dec_game_data(enc_game_data(m).take(k)) {
            None => true,
            Some(m2) => {
                &&& m2.duration == m.duration
                &&& m2.score_points.len() < m.score_points.len()
                &&& m2.score_points == m.score_points.take(m2.score_points.len() as int)
            },
        },
{
    crate::packet::lemma_enc_len_facts();
    let e2 = enc_score_points(m.score_points);
    let s = enc_game_data(m).take(k);
    if k >= 2 {
        assert(s =~= enc_u16(m.duration.secs) + e2.take(k - 2));
        lemma_u16_round_trip(m.duration.secs, e2.take(k - 2));
        assert(s.skip(2) =~= e2.take(k - 2));
        lemma_score_points_truncation(m.score_points, k - 2);
    }
}

// ---------------------------------------------------------------------------
// ScoredRecord and GameState
// ---------------------------------------------------------------------------

/// Accumulator for one score point of one team: how many times it was scored
/// and how many times a score was undone.
#[derive(Clone, Copy, Debug, PartialEq, Eq, Structural)]
pub struct ScoredRecord {
    pub scored: i32,
    pub undo: i32,
}

impl ScoredRecord {
    pub open spec fn spec_zero() -> ScoredRecord {
        ScoredRecord { scored: 0, undo: 0 }
    }

    pub fn zero() -> (r: Self)
        ensures
            r == ScoredRecord::spec_zero(),
    {
        ScoredRecord { scored: 0, undo: 0 }
    }

    pub fn one_scored() -> (r: Self)
        ensures
            r == (ScoredRecord { scored: 1, undo: 0 }),
    {
        ScoredRecord { scored: 1, undo: 0 }
    }

    pub fn one_undo() -> (r: Self)
        ensures
            r == (ScoredRecord { scored: 0, undo: 1 }),
    {
        ScoredRecord { scored: 0, undo: 1 }
    }

    /// This record with one more score or undo; a counter at its maximum
    /// stays there.
    pub open spec fn spec_bump(self, undo: bool) -> ScoredRecord {
        if undo {
            ScoredRecord {
                scored: self.scored,
                undo: if self.undo == i32::MAX {
                    self.undo
                } else {
                    (self.undo + 1) as i32
                },
            }
        } else {
            ScoredRecord {
                scored: if self.scored == i32::MAX {
                    self.scored
                } else {
                    (self.scored + 1) as i32
                },
                undo: self.undo,
            }
        }
    }

    pub fn bump(self, undo: bool) -> (r: Self)
        ensures
            r == self.spec_bump(undo),
    {
        if undo {
            ScoredRecord {
                scored: self.scored,
                undo: if self.undo == i32::MAX {
                    self.undo
                } else {
                    self.undo + 1
                },
            }
        } else {
            ScoredRecord {
                scored: if self.scored == i32::MAX {
                    self.scored
                } else {
                    self.scored + 1
                },
                undo: self.undo,
            }
        }
    }
}

/// The mutable state of one live game.
#[derive(Debug)]
pub struct GameState {
    pub blue_scored: HashMap<u8, ScoredRecord>,
    pub red_scored: HashMap<u8, ScoredRecord>,
    pub time_started: Option<u64>,
    pub time_paused: u64,
    pub paused: bool,
    pub ended: bool,
}

/// The abstract form of a game state.
pub struct GameStateModel {
    pub blue_scored: Map<u8, ScoredRecord>,
    pub red_scored: Map<u8, ScoredRecord>,
    pub time_started: Option<u64>,
    pub time_paused: u64,
    pub paused: bool,
    pub ended: bool,
}

impl View for GameState {
    type V = GameStateModel;

    open spec fn view(&self) -> GameStateModel {
        GameStateModel {
            blue_scored: self.blue_scored@,
            red_scored: self.red_scored@,
            time_started: self.time_started,
            time_paused: self.time_paused,
            paused: self.paused,
            ended: self.ended,
        }
    }
}

impl GameStateModel {
    /// The state of a freshly created session: nothing scored, clock not
    /// started, not paused, not ended.
    pub open spec fn init() -> GameStateModel {
        GameStateModel {
            blue_scored: Map::empty(),
            red_scored: Map::empty(),
            time_started: None,
            time_paused: 0,
            paused: false,
            ended: false,
        }
    }

    /// Start is legal only while the clock has never been set (or was
    /// cleared by an end).
    pub open spec fn start_allowed(self) -> bool {
        self.time_started is None
    }

    pub open spec fn with_start(self, time: u64) -> GameStateModel {
        GameStateModel { time_started: Some(time), ..self }
    }

    /// End is legal only while the clock is running.
    pub open spec fn end_allowed(self) -> bool {
        self.time_started is Some
    }

    pub open spec fn with_end(self) -> GameStateModel {
        GameStateModel { time_started: None, ended: true, ..self }
    }

    /// Pause is legal only while not already paused.
    pub open spec fn pause_allowed(self) -> bool {
        !self.paused
    }

    pub open spec fn with_pause(self) -> GameStateModel {
        GameStateModel { paused: true, ..self }
    }

    /// Unpause is legal only while paused.
    pub open spec fn unpause_allowed(self) -> bool {
        self.paused
    }

    /// Unpausing accumulates the elapsed pause time; the accumulator
    /// saturates rather than wraps.
    pub open spec fn with_unpause(self, elapsed: u64) -> GameStateModel {
        GameStateModel {
            paused: false,
            time_paused: if self.time_paused + elapsed > u64::MAX {
                u64::MAX
            } else {
                (self.time_paused + elapsed) as u64
            },
            ..self
        }
    }

    /// The accumulator of one team for one score-point index; an index never
    /// scored stands at zero.
    pub open spec fn record_of(self, team: Team, index: u8) -> ScoredRecord {
        let table = match team {
            Team::Blue => self.blue_scored,
            Team::Red => self.red_scored,
        };
        if table.contains_key(index) {
            table[index]
        } else {
            ScoredRecord::spec_zero()
        }
    }

    /// One score or undo applied to one team's accumulator.
    pub open spec fn with_score(self, team: Team, index: u8, undo: bool) -> GameStateModel {
        let bumped = self.record_of(team, index).spec_bump(undo);
        match team {
            Team::Blue => GameStateModel {
                blue_scored: self.blue_scored.insert(index, bumped),
                ..self
            },
            Team::Red => GameStateModel {
                red_scored: self.red_scored.insert(index, bumped),
                ..self
            },
        }
    }
}

impl GameState {
    pub fn new() -> (r: Self)
        ensures
            r@ == GameStateModel::init(),
    {
        GameState {
            blue_scored: HashMap::new(),
            red_scored: HashMap::new(),
            time_started: None,
            time_paused: 0,
            paused: false,
            ended: false,
        }
    }

    /// Starts the game clock; rejected when the clock is already set.
    pub fn start(&mut self, time_started: u64) -> (ok: bool)
        ensures
            ok == old(self)@.start_allowed(),
            ok ==> final(self)@ == old(self)@.with_start(time_started),
            !ok ==> *final(self) == *old(self),
    {
        if self.time_started.is_some() {
            return false;
        }
        self.time_started = Some(time_started);
        true
    }

    /// Ends the game; rejected when the clock is not running.
    pub fn end(&mut self) -> (ok: bool)
        ensures
            ok == old(self)@.end_allowed(),
            ok ==> final(self)@ == old(self)@.with_end(),
            !ok ==> *final(self) == *old(self),
    {
        if self.time_started.is_none() {
            return false;
        }
        self.time_started = None;
        self.ended = true;
        true
    }

    /// Pauses the game; rejected when already paused.
    pub fn pause(&mut self) -> (ok: bool)
        ensures
            ok == old(self)@.pause_allowed(),
            ok ==> final(self)@ == old(self)@.with_pause(),
            !ok ==> *final(self) == *old(self),
    {
        if self.paused {
            return false;
        }
        self.paused = true;
        true
    }

    /// Unpauses the game, accumulating the elapsed pause time; rejected when
    /// not paused.
    pub fn unpause(&mut self, elapsed: u64) -> (ok: bool)
        ensures
            ok == old(self)@.unpause_allowed(),
            ok ==> final(self)@ == old(self)@.with_unpause(elapsed),
            !ok ==> *final(self) == *old(self),
    {
        if !self.paused {
            return false;
        }
        self.time_paused = if self.time_paused > u64::MAX - elapsed {
            u64::MAX
        } else {
            self.time_paused + elapsed
        };
        self.paused = false;
        true
    }

    /// Applies one score or undo to one team's accumulator. Whether the
    /// index is legal for the session's game data is the registry's check,
    /// not this one's.
    pub fn apply_score(&mut self, team: Team, index: u8, undo: bool)
        ensures
            final(self)@ == old(self)@.with_score(team, index, undo),
    {
        match team {
            Team::Blue => {
                let cur = match self.blue_scored.get(&index) {
                    Some(r) => *r,
                    None => ScoredRecord::zero(),
                };
                self.blue_scored.insert(index, cur.bump(undo));
            },
            Team::Red => {
                let cur = match self.red_scored.get(&index) {
                    Some(r) => *r,
                    None => ScoredRecord::zero(),
                };
                self.red_scored.insert(index, cur.bump(undo));
            },
        }
    }
}

impl Clone for GameState {
    fn clone(&self) -> (res: Self)
        ensures
            res@ == self@,
    {
        GameState {
            blue_scored: self.blue_scored.clone(),
            red_scored: self.red_scored.clone(),
            time_started: self.time_started,
            time_paused: self.time_paused,
            paused: self.paused,
            ended: self.ended,
        }
    }
}

impl Default for GameState {
    fn default() -> (r: Self)
        ensures
            r@ == GameStateModel::init(),
    {
        GameState::new()
    }
}

impl Default for ScoredRecord {
    fn default() -> (r: Self)
        ensures
            r == ScoredRecord::spec_zero(),
    {
        ScoredRecord::zero()
    }
}

// ---------------------------------------------------------------------------
// Laws of the game-state machine.
// ---------------------------------------------------------------------------

/// Issuing start twice is rejected the second time: a successful start
/// leaves a state in which start is no longer allowed.
pub proof fn lemma_start_twice_rejected(s: GameStateModel, time: u64)
    requires
        s.start_allowed(),
    ensures
        !s.with_start(time).start_allowed(),
{
}

/// Issuing pause twice is rejected the second time.
pub proof fn lemma_pause_twice_rejected(s: GameStateModel)
    requires
        s.pause_allowed(),
    ensures
        !s.with_pause().pause_allowed(),
{
}

/// Unpause without a prior pause is rejected: a state that is not paused
/// does not allow unpause, and a completed unpause disallows another.
pub proof fn lemma_unpause_requires_pause(s: GameStateModel, elapsed: u64)
    requires
        !s.paused,
    ensures
        !s.unpause_allowed(),
        s.with_pause().with_unpause(elapsed).unpause_allowed() == false,
{
}

/// A sequence of score submissions applied one at a time, as the registry's
/// lock serializes them.
pub open spec fn apply_submissions(
    s: GameStateModel,
    subs: Seq<(Team, u8, bool)>,
) -> GameStateModel
    decreases subs.len(),
{
    if subs.len() == 0 {
        s
    } else {
        apply_submissions(s.with_score(subs[0].0, subs[0].1, subs[0].2), subs.drop_first())
    }
}

/// How many submissions in the sequence hit one team, index and undo flag.
pub open spec fn count_submissions(
    subs: Seq<(Team, u8, bool)>,
    team: Team,
    index: u8,
    undo: bool,
) -> nat
    decreases subs.len(),
{
    if subs.len() == 0 {
        0
    } else {
        (if subs[0] == (team, index, undo) {
            1nat
        } else {
            0nat
        }) + count_submissions(subs.drop_first(), team, index, undo)
    }
}

/// No lost updates: serialized score submissions all apply exactly once, so
/// each counter ends at its starting value plus the number of submissions
/// that address it (as long as the counter does not saturate).
pub proof fn lemma_submissions_all_apply(
    s: GameStateModel,
    subs: Seq<(Team, u8, bool)>,
    team: Team,
    index: u8,
)
    requires
        s.record_of(team, index).scored + count_submissions(subs, team, index, false) <= i32::MAX,
        s.record_of(team, index).undo + count_submissions(subs, team, index, true) <= i32::MAX,
    ensures
        apply_submissions(s, subs).record_of(team, index).scored == s.record_of(
            team,
            index,
        ).scored + count_submissions(subs, team, index, false),
        apply_submissions(s, subs).record_of(team, index).undo == s.record_of(team, index).undo
            + count_submissions(subs, team, index, true),
    decreases subs.len(),
{
    if subs.len() == 0 {
    } else {
        let s1 = s.with_score(subs[0].0, subs[0].1, subs[0].2);
        lemma_submissions_all_apply(s1, subs.drop_first(), team, index);
    }
}

// ---------------------------------------------------------------------------
// Built-in game catalog interface
// ---------------------------------------------------------------------------

/// One predefined competition: a display name and its game definition.
#[derive(Debug)]
pub struct BuiltinGame {
    pub name: String,
    pub data: GameData,
}

/// The read-only table of predefined competitions. The core only looks
/// entries up; the table itself is supplied by the surrounding application.
pub struct BuiltinGames {
    pub games: Vec<BuiltinGame>,
}

impl BuiltinGames {
    /// The entry a sum-typed game reference points at, when in range.
    pub fn lookup_by_index(&self, index: usize) -> (r: Option<&BuiltinGame>)
        ensures
            match r {
                Some(g) => index < self.games@.len() && *g == self.games@[index as int],
                None => index >= self.games@.len(),
            },
    {
        if index < self.games.len() {
            Some(&self.games[index])
        } else {
            None
        }
    }
}

} // verus!
