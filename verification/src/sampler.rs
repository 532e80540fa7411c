//! Choosing where the mines lie: candidates drawn from the digits of the
//! clock, of which the first distinct ones that fit the board are kept.

use std::time::Duration;
use std::time::SystemTime;
use std::time::SystemTimeError;
use vstd::prelude::*;
use crate::board::{count_mines, laid_out};
use crate::minefield::Minefield;

verus! {

/// The clock is read at most this often for one board.
pub const DRAW_LIMIT: usize = 0x10_0000;

/// No candidate is as large as this: a candidate has three digits.
pub const CANDIDATE_LIMIT: usize = 1000;

/// Why no mines were chosen.
#[derive(Clone, Copy, Debug, PartialEq, Eq, Structural)]
pub enum NoMines {
    /// The board has fewer squares than it needs mines, or needs more mines
    /// than there are candidates.
    NoRoom,
    /// The clock stands before the start of 1970 and gives no reading.
    ClockUnread,
    /// `DRAW_LIMIT` readings of the clock have not given enough positions.
    OutOfReadings,
}

/// What to do once the candidates of a reading have been looked at.
#[derive(Clone, Copy, Debug, PartialEq, Eq, Structural)]
pub enum Progress {
    /// As many positions are kept as the board has mines.
    Done,
    /// More positions are needed: the clock is read again.
    Again,
    /// More positions are needed, and the clock has been read as often as
    /// it may be.
    GiveUp,
}

/// A reading of the system clock, `std::time::SystemTime`: carried from
/// one call to the next, never looked into.
#[verifier::external_type_specification]
#[verifier::external_body]
pub struct ExSystemTime(SystemTime);

/// The error of a clock that stands before the start of 1970,
/// `std::time::SystemTimeError`: never looked into.
#[verifier::external_type_specification]
#[verifier::external_body]
pub struct ExSystemTimeError(SystemTimeError);

/// The number of mines on a board of `total` squares: a fifth of the
/// squares, rounded down, and at least one.
pub open spec fn mine_quota(total: int) -> int {
    if total / 5 == 0 {
        1
    } else {
        total / 5
    }
}

/// The decimal digits of `n`, the last digit first.
pub open spec fn digits_from_last(n: nat) -> Seq<u8>
    decreases n,
{
    if n < 10 {
        seq![n as u8]
    } else {
        seq![(n % 10) as u8] + digits_from_last(n / 10)
    }
}

/// The number written by the three digits from place `k` on.
pub open spec fn window_value(digits: Seq<u8>, k: int) -> int {
    100 * digits[k] + 10 * digits[k + 1] + digits[k + 2]
}

/// The candidates that a reading of the clock gives: the digits of the
/// reading are taken from the last, and each run of `size` digits gives the
/// number that its first three digits write.
pub open spec fn seed_values(nanos: nat, size: int) -> Seq<usize> {
    let digits = digits_from_last(nanos);
    Seq::new(
        if digits.len() >= size {
            (digits.len() - size + 1) as nat
        } else {
            0
        },
        |k: int| window_value(digits, k) as usize,
    )
}

/// The positions kept after the candidates of `stream` have been looked at
/// in turn: a candidate is kept if it lies on the board, is not kept
/// already, and fewer than `limit` are kept.
pub open spec fn kept(numbers: Seq<usize>, stream: Seq<usize>, limit: int, total: int) -> Seq<usize>
    decreases stream.len(),
{
    if stream.len() == 0 {
        numbers
    } else {
        let num = stream[0];
        let next = if !numbers.contains(num) && numbers.len() < limit && num < total {
            numbers.push(num)
        } else {
            numbers
        };
        kept(next, stream.drop_first(), limit, total)
    }
}

/// The positions kept after the candidates of each reading of `streams`
/// have been looked at, one reading after another, beginning with none.
pub open spec fn gathered(streams: Seq<Seq<usize>>, limit: int, total: int) -> Seq<usize>
    decreases streams.len(),
{
    if streams.len() == 0 {
        Seq::empty()
    } else {
        kept(gathered(streams.drop_last(), limit, total), streams.last(), limit, total)
    }
}

/// `stream` holds the candidates of some reading of the clock, for runs of
/// three digits.
pub open spec fn is_draw(stream: Seq<usize>) -> bool {
    exists|nanos: nat| stream == #[trigger] seed_values(nanos, 3)
}

/// `streams` are the readings that chose the mines of a board of `total`
/// squares: at least one and at most `DRAW_LIMIT`, each the candidates of a
/// reading of the clock, of which the last filled the quota of mines and
/// none before it did.
pub open spec fn draws_for(streams: Seq<Seq<usize>>, total: int) -> bool {
    &&& 1 <= streams.len() <= DRAW_LIMIT
    &&& forall|i: int| 0 <= i < streams.len() ==> is_draw(#[trigger] streams[i])
    &&& gathered(streams, mine_quota(total), total).len() == mine_quota(total)
    &&& gathered(streams.drop_last(), mine_quota(total), total).len() < mine_quota(total)
}

/// `streams` are readings that left the mines of a board of `total` squares
/// short: each the candidates of a reading of the clock, and fewer
/// positions kept from all of them than the board has mines.
pub open spec fn short_of(streams: Seq<Seq<usize>>, total: int) -> bool {
    &&& forall|i: int| 0 <= i < streams.len() ==> is_draw(#[trigger] streams[i])
    &&& gathered(streams, mine_quota(total), total).len() < mine_quota(total)
}

/// As many readings as may be made have left the mines of a board of
/// `total` squares short.
pub open spec fn ran_out(total: int) -> bool {
    exists|streams: Seq<Seq<usize>>|
        streams.len() == DRAW_LIMIT && #[trigger] short_of(streams, total)
}

/// The clock gave no reading while the mines of a board of `total` squares
/// were still short, after fewer readings than may be made.
pub open spec fn cut_short(total: int) -> bool {
    exists|streams: Seq<Seq<usize>>|
        streams.len() < DRAW_LIMIT && #[trigger] short_of(streams, total)
}

/// A board of `total` squares has room for its mines, and needs no more
/// than there are candidates.
pub open spec fn has_room(total: int) -> bool {
    mine_quota(total) <= total && mine_quota(total) <= CANDIDATE_LIMIT
}

/// What is to be done when `have` positions are kept of the `limit` that
/// are needed, after `draws` readings.
pub open spec fn progress(have: int, limit: int, draws: int) -> Progress {
    if have == limit {
        Progress::Done
    } else if draws < DRAW_LIMIT {
        Progress::Again
    } else {
        Progress::GiveUp
    }
}

/// `numbers` are mines chosen for a board of `total` squares: the
/// positions kept from the candidates of successive readings of the clock.
pub open spec fn chosen(numbers: Seq<usize>, total: int) -> bool {
    exists|streams: Seq<Seq<usize>>|
        draws_for(streams, total) && numbers == #[trigger] gathered(
            streams,
            mine_quota(total),
            total,
        )
}

/// The positions are distinct, lie on the board, and are at most `limit`.
pub open spec fn sound(numbers: Seq<usize>, limit: int, total: int) -> bool {
    &&& numbers.len() <= limit
    &&& numbers.no_duplicates()
    &&& forall|k: int| 0 <= k < numbers.len() ==> #[trigger] numbers[k] < total
}

/// Keeping candidates keeps the positions sound, and never drops one.
pub proof fn lemma_kept_sound(numbers: Seq<usize>, stream: Seq<usize>, limit: int, total: int)
    requires
        sound(numbers, limit, total),
    ensures
        sound(kept(numbers, stream, limit, total), limit, total),
        numbers.len() <= kept(numbers, stream, limit, total).len(),
    decreases stream.len(),
{
    if stream.len() > 0 {
        let num = stream[0];
        let next = if !numbers.contains(num) && numbers.len() < limit && num < total {
            numbers.push(num)
        } else {
            numbers
        };
        lemma_kept_sound(next, stream.drop_first(), limit, total);
    }
}

/// Reads the system clock, by `SystemTime::now`. Nothing is claimed of the
/// reading.
#[verifier::external_body]
fn clock_now() -> SystemTime {
    SystemTime::now()
}

/// The time from the start of 1970 to `now`, by `SystemTime::duration_since`;
/// an error if `now` lies before that. Nothing is claimed of the time.
#[verifier::external_body]
fn since_epoch(now: &SystemTime) -> Result<Duration, SystemTimeError> {
    now.duration_since(SystemTime::UNIX_EPOCH)
}

/// A span of time in whole nanoseconds, by `Duration::as_nanos`. Nothing is
/// claimed of the number.
#[verifier::external_body]
fn whole_nanos(span: &Duration) -> u128 {
    span.as_nanos()
}

impl Minefield {
    /// Whether `num` is among `numbers`.
    pub fn is_kept(numbers: &Vec<usize>, num: usize) -> (found: bool)
        ensures
            found == numbers@.contains(num),
    {
        let mut i: usize = 0;
        while i < numbers.len()
            invariant
                i <= numbers@.len(),
                forall|j: int| 0 <= j < i ==> numbers@[j] != num,
            decreases numbers@.len() - i,
        {
            if numbers[i] == num {
                return true;
            }
            i += 1;
        }
        false
    }

    /// The decimal digits of `nanos`, the last digit first.
    pub fn digits(nanos: u128) -> (digits: Vec<u8>)
        ensures
            digits@ == digits_from_last(nanos as nat),
    {
        let mut digits: Vec<u8> = Vec::new();
        let mut rest: u128 = nanos;
        while rest >= 10
            invariant
                digits@ + digits_from_last(rest as nat) == digits_from_last(nanos as nat),
            decreases rest,
        {
            let ghost before = digits@;
            let digit: u8 = (rest % 10) as u8;
            digits.push(digit);
            proof {
                let tail = digits_from_last((rest / 10) as nat);
                assert(before.push(digit) + tail =~= before + (seq![digit] + tail));
            }
            rest = rest / 10;
        }
        let ghost before = digits@;
        digits.push(rest as u8);
        proof {
            assert(before.push(rest as u8) =~= before + seq![rest as u8]);
        }
        digits
    }

    /// The candidates that the reading `nanos` of the clock gives, for runs
    /// of `size` digits.
    pub fn seed_from(nanos: u128, size: usize) -> (numbers: Vec<usize>)
        requires
            size >= 3,
        ensures
            numbers@ == seed_values(nanos as nat, size as int),
    {
        let digits = Minefield::digits(nanos);
        let mut numbers: Vec<usize> = Vec::new();
        if digits.len() >= size {
            let count: usize = digits.len() - size + 1;
            let mut k: usize = 0;
            while k < count
                invariant
                    size >= 3,
                    digits@.len() >= size,
                    digits@.len() <= usize::MAX,
                    count == digits@.len() - size + 1,
                    k <= count,
                    numbers@.len() == k,
                    forall|j: int|
                        0 <= j < k ==> numbers@[j] == window_value(digits@, j) as usize,
                decreases count - k,
            {
                let hundreds: usize = digits[k] as usize;
                let tens: usize = digits[k + 1] as usize;
                let ones: usize = digits[k + 2] as usize;
                numbers.push(100 * hundreds + 10 * tens + ones);
                k += 1;
            }
        }
        proof {
            assert(numbers@ =~= seed_values(nanos as nat, size as int));
        }
        numbers
    }

    /// Reads the clock and gives the candidates of the reading, for runs of
    /// `size` digits; nothing if the clock stands before the start of 1970.
    pub fn seed(size: usize) -> (drawn: Option<Vec<usize>>)
        requires
            size >= 3,
        ensures
            drawn matches Some(numbers) ==> exists|nanos: nat|
                numbers@ == #[trigger] seed_values(nanos, size as int),
    {
        let now = clock_now();
        match since_epoch(&now) {
            Ok(span) => {
                let nanos: u128 = whole_nanos(&span);
                let numbers = Minefield::seed_from(nanos, size);
                assert(numbers@ == seed_values(nanos as nat, size as int));
                Some(numbers)
            },
            Err(_) => None,
        }
    }

    /// Looks at the candidates of `stream` in turn and keeps each that lies
    /// on a board of `total` squares and is not kept already, as long as
    /// fewer than `limit` are kept.
    pub fn keep(numbers: &mut Vec<usize>, stream: &Vec<usize>, limit: usize, total: usize)
        ensures
            final(numbers)@ == kept(old(numbers)@, stream@, limit as int, total as int),
    {
        let mut i: usize = 0;
        proof {
            assert(stream@.skip(0) =~= stream@);
        }
        while i < stream.len()
            invariant
                i <= stream@.len(),
                kept(numbers@, stream@.skip(i as int), limit as int, total as int) == kept(
                    old(numbers)@,
                    stream@,
                    limit as int,
                    total as int,
                ),
            decreases stream@.len() - i,
        {
            let num: usize = stream[i];
            proof {
                assert(stream@.skip(i as int)[0] == num);
                assert(stream@.skip(i as int).drop_first() =~= stream@.skip(i + 1));
            }
            if !Minefield::is_kept(numbers, num) && numbers.len() < limit && num < total {
                numbers.push(num);
            }
            i += 1;
        }
        proof {
            assert(stream@.skip(i as int).len() == 0);
        }
    }

    /// Decides what to do when `have` positions are kept of the `limit`
    /// that are needed, after `draws` readings of the clock: nothing more
    /// if there are enough, else another reading, unless `DRAW_LIMIT` have
    /// been made.
    pub fn after_reading(have: usize, limit: usize, draws: usize) -> (next: Progress)
        ensures
            next == progress(have as int, limit as int, draws as int),
    {
        if have == limit {
            Progress::Done
        } else if draws < DRAW_LIMIT {
            Progress::Again
        } else {
            Progress::GiveUp
        }
    }

    /// Chooses the mines of a board of `total` squares: reads the clock
    /// again and again and keeps, from the candidates of each reading, those
    /// that lie on the board and are not kept already, until there are as
    /// many as the board has mines. Fails at once if the board has no room
    /// for its mines or needs more than there are candidates; fails if the
    /// clock gives no reading, or if `DRAW_LIMIT` readings have not given
    /// enough.
    pub fn randomise_mines(total: usize) -> (mines: Result<Vec<usize>, NoMines>)
        ensures
            mines matches Err(NoMines::NoRoom) <==> !has_room(total as int),
            mines matches Err(NoMines::OutOfReadings) ==> ran_out(total as int),
            mines matches Err(NoMines::ClockUnread) ==> cut_short(total as int),
            mines matches Ok(numbers) ==> chosen(numbers@, total as int),
            mines matches Ok(numbers) ==> numbers@.len() == mine_quota(total as int)
                && numbers@.no_duplicates() && forall|k: int|
                0 <= k < numbers@.len() ==> numbers@[k] < total,
    {
        let limit: usize = if total / 5 == 0 {
            1
        } else {
            total / 5
        };
        if limit > total || limit > CANDIDATE_LIMIT {
            return Err(NoMines::NoRoom);
        }
        let mut numbers: Vec<usize> = Vec::new();
        let mut draws: usize = 0;
        let ghost mut streams: Seq<Seq<usize>> = Seq::empty();
        loop
            invariant
                draws <= DRAW_LIMIT,
                limit == mine_quota(total as int),
                has_room(total as int),
                sound(numbers@, limit as int, total as int),
                streams.len() == draws,
                forall|i: int| 0 <= i < streams.len() ==> is_draw(#[trigger] streams[i]),
                numbers@ == gathered(streams, limit as int, total as int),
                streams.len() > 0 ==> gathered(streams.drop_last(), limit as int, total as int).len()
                    < limit,
            decreases DRAW_LIMIT - draws,
        {
            match Minefield::after_reading(numbers.len(), limit, draws) {
                Progress::Done => {
                    proof {
                        assert(draws_for(streams, total as int));
                    }
                    return Ok(numbers);
                },
                Progress::GiveUp => {
                    proof {
                        assert(short_of(streams, total as int));
                    }
                    return Err(NoMines::OutOfReadings);
                },
                Progress::Again => {},
            }
            match Minefield::seed(3) {
                Some(stream) => {
                    proof {
                        lemma_kept_sound(numbers@, stream@, limit as int, total as int);
                        assert(is_draw(stream@));
                        assert(streams.push(stream@).drop_last() =~= streams);
                        streams = streams.push(stream@);
                    }
                    Minefield::keep(&mut numbers, &stream, limit, total);
                },
                None => {
                    proof {
                        assert(short_of(streams, total as int));
                    }
                    return Err(NoMines::ClockUnread);
                },
            }
            draws += 1;
        }
    }

    /// Lays out a fresh board of the given width and height with mines
    /// chosen by the clock, a fifth of the squares and at least one. Fails
    /// as the choice of mines fails: at once for a board that needs more
    /// mines than there are candidates.
    pub fn new(width: usize, height: usize) -> (made: Result<Minefield, NoMines>)
        requires
            2 <= width,
            2 <= height,
            width * height <= usize::MAX,
        ensures
            made matches Ok(field) ==> {
                &&& field@.wf()
                &&& count_mines(field@.squares) == mine_quota(width * height)
                &&& exists|mines: Seq<usize>|
                    {
                        &&& chosen(mines, width * height)
                        &&& mines.len() == mine_quota(width * height)
                        &&& mines.no_duplicates()
                        &&& forall|k: int| 0 <= k < mines.len() ==> mines[k] < width * height
                        &&& field@ == #[trigger] laid_out(width as int, height as int, mines)
                    }
            },
            made matches Err(NoMines::NoRoom) <==> mine_quota(width * height) > CANDIDATE_LIMIT,
            made matches Err(NoMines::OutOfReadings) ==> ran_out(width * height),
            made matches Err(NoMines::ClockUnread) ==> cut_short(width * height),
    {
        let total: usize = width * height;
        proof {
            assert(4 <= width * height) by (nonlinear_arith)
                requires
                    2 <= width,
                    2 <= height,
            ;
        }
        match Minefield::randomise_mines(total) {
            Ok(mines) => {
                let ghost picked = mines@;
                let field = Minefield::with_mines(width, height, mines);
                assert(field@ == laid_out(width as int, height as int, picked));
                Ok(field)
            },
            Err(why) => Err(why),
        }
    }
}

} // verus!
