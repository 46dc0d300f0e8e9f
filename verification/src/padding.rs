//! Padding schedules: how many padding bytes go into each fragment of a
//! handshake, and how long to wait between fragments.
use vstd::prelude::*;
use vstd::string::*;

use crate::number::{parse_number, split_bounds};

verus! {

/// The shortest first padding: a length prefix with its tag, and one byte with
/// its tag.
pub const MIN_FIRST_LEN: i64 = 35;

/// The most padding that a schedule may ask for in all.
pub const MAX_TOTAL_LEN: i64 = 65553;

/// One entry of a schedule: a value from `from` up to but not including `to`,
/// used where `chance` is at least a random percentage below a hundred.
pub struct Slot {
    pub chance: int,
    pub from: int,
    pub to: int,
}

/// A schedule: the slots of the fragment lengths and of the gaps between them.
#[verifier::ext_equal]
pub struct Schedule {
    pub lens: Seq<Slot>,
    pub gaps: Seq<Slot>,
}

/// The slot that a triple of numbers describes.
pub open spec fn slot(triple: Seq<i64>) -> Slot {
    Slot { chance: triple[0] as int, from: triple[1] as int, to: triple[2] as int }
}

/// The slots that triples of numbers describe.
pub open spec fn slots(triples: Seq<[i64; 3]>) -> Seq<Slot> {
    triples.map_values(|t: [i64; 3]| slot(t@))
}

/// The larger bound of a slot.
pub open spec fn larger_bound(s: Slot) -> int {
    if s.from > s.to {
        s.from
    } else {
        s.to
    }
}

/// The larger bounds of all slots together.
pub open spec fn total(lens: Seq<Slot>) -> int
    decreases lens.len(),
{
    if lens.len() == 0 {
        0
    } else {
        total(lens.drop_last()) + larger_bound(lens.last())
    }
}

/// No number of the slot is negative, and all fit the machine's integers.
pub open spec fn slot_in_range(s: Slot) -> bool {
    &&& 0 <= s.chance <= i64::MAX
    &&& 0 <= s.from <= i64::MAX
    &&& 0 <= s.to <= i64::MAX
}

/// What holds of every schedule that is read or made: the numbers are in range,
/// the first length is always used and not too short, and the lengths together
/// are not too long.
pub open spec fn valid(s: Schedule) -> bool {
    &&& forall|i: int| 0 <= i < s.lens.len() ==> slot_in_range(#[trigger] s.lens[i])
    &&& forall|i: int| 0 <= i < s.gaps.len() ==> slot_in_range(#[trigger] s.gaps[i])
    &&& s.lens.len() > 0 ==> long_enough(s.lens[0])
    &&& total(s.lens) <= MAX_TOTAL_LEN
}

/// A slot that may come first: it is always used, and never gives less than the
/// shortest first padding.
pub open spec fn long_enough(s: Slot) -> bool {
    &&& s.chance >= 100
    &&& s.from >= MIN_FIRST_LEN
    &&& s.to >= MIN_FIRST_LEN
}

/// The first three numbers of a segment, or the message for the first thing
/// wrong with it.
pub open spec fn segment_slot(index: nat, segment: Seq<char>) -> Result<Slot, Seq<char>> {
    let parts = crate::number::split(segment, '-');
    if parts.len() < 3 || parts[0].len() == 0 || parts[1].len() == 0 || parts[2].len() == 0 {
        Err("invalid padding length/gap parameter: "@ + segment)
    } else {
        match (
            crate::number::number(parts[0]),
            crate::number::number(parts[1]),
            crate::number::number(parts[2]),
        ) {
            (None, _, _) => Err("invalid padding number: "@ + parts[0]),
            (_, None, _) => Err("invalid padding number: "@ + parts[1]),
            (_, _, None) => Err("invalid padding number: "@ + parts[2]),
            (Some(chance), Some(from), Some(to)) => {
                let s = Slot { chance, from, to };
                if index == 0 && !long_enough(s) {
                    Err("first padding length must not be smaller than 35"@)
                } else {
                    Ok(s)
                }
            },
        }
    }
}

/// The schedule of the first `n` segments, lengths and gaps in turn, or the
/// message for the first segment that is wrong.
pub open spec fn segments_schedule(segments: Seq<Seq<char>>, n: nat) -> Result<
    Schedule,
    Seq<char>,
>
    decreases n,
{
    if n == 0 {
        Ok(Schedule { lens: Seq::empty(), gaps: Seq::empty() })
    } else {
        let i = (n - 1) as nat;
        match segments_schedule(segments, i) {
            Err(message) => Err(message),
            Ok(so_far) => match segment_slot(i, segments[i as int]) {
                Err(message) => Err(message),
                Ok(s) => if i % 2 == 0 {
                    Ok(Schedule { lens: so_far.lens.push(s), gaps: so_far.gaps })
                } else {
                    Ok(Schedule { lens: so_far.lens, gaps: so_far.gaps.push(s) })
                },
            },
        }
    }
}

/// The schedule that `text` describes, or the message for what is wrong with it.
/// The empty text is the empty schedule.
pub open spec fn schedule_of(text: Seq<char>) -> Result<Schedule, Seq<char>> {
    let segments = crate::number::split(text, '.');
    if text.len() == 0 {
        Ok(Schedule { lens: Seq::empty(), gaps: Seq::empty() })
    } else {
        match segments_schedule(segments, segments.len()) {
            Err(message) => Err(message),
            Ok(s) => if total(s.lens) > MAX_TOTAL_LEN {
                Err("total padding length must not be larger than 65553"@)
            } else {
                Ok(s)
            },
        }
    }
}

/// A padding schedule: length triples and gap triples.
pub struct Padding {
    lens: Vec<[i64; 3]>,
    gaps: Vec<[i64; 3]>,
}

impl View for Padding {
    type V = Schedule;

    closed spec fn view(&self) -> Schedule {
        Schedule { lens: slots(self.lens@), gaps: slots(self.gaps@) }
    }
}

impl Padding {
    #[verifier::type_invariant]
    spec fn inv(self) -> bool {
        valid(self@)
    }
}

impl Default for Padding {
    /// The empty schedule.
    fn default() -> (p: Self)
        ensures
            p@ == (Schedule { lens: Seq::empty(), gaps: Seq::empty() }),
    {
        let p = Padding { lens: Vec::new(), gaps: Vec::new() };
        assert(p@ =~= (Schedule { lens: Seq::empty(), gaps: Seq::empty() }));
        p
    }
}

/// A copy of a run of triples.
fn copied(triples: &Vec<[i64; 3]>) -> (copy: Vec<[i64; 3]>)
    ensures
        copy@ == triples@,
{
    let mut copy: Vec<[i64; 3]> = Vec::new();
    for i in 0..triples.len()
        invariant
            copy@ == triples@.take(i as int),
    {
        copy.push(triples[i]);
        assert(copy@ =~= triples@.take(i + 1));
    }
    assert(triples@.take(triples@.len() as int) =~= triples@);
    copy
}

impl Clone for Padding {
    fn clone(&self) -> (p: Self)
        ensures
            p@ == self@,
    {
        proof {
            use_type_invariant(self);
        }
        Padding { lens: copied(&self.lens), gaps: copied(&self.gaps) }
    }
}

/// The characters of `text`.
fn chars_of(text: &str) -> (chars: Vec<char>)
    ensures
        chars@ == text@,
{
    let mut chars: Vec<char> = Vec::new();
    for c in it: text.chars()
        invariant
            it.seq() == text@,
            chars@ == text@.take(it.index() as int),
    {
        chars.push(c);
        assert(chars@ =~= text@.take(it.index() + 1));
    }
    assert(text@.take(text@.len() as int) =~= text@);
    chars
}

/// `prefix` followed by the characters of `text` from `from` up to `to`.
fn message_with(prefix: &str, text: &str, from: usize, to: usize) -> (message: String)
    requires
        from <= to <= text@.len(),
    ensures
        message@ == prefix@ + text@.subrange(from as int, to as int),
{
    let mut message = prefix.to_owned();
    message.append(text.substring_char(from, to));
    message
}

/// Reads the segment between `from` and `to` of `text`, whose characters are
/// `chars`.
fn parse_segment(
    text: &str,
    chars: &Vec<char>,
    index: usize,
    from: usize,
    to: usize,
) -> (triple: Result<[i64; 3], String>)
    requires
        chars@ == text@,
        from <= to <= text@.len(),
    ensures
        match triple {
            Ok(t) => segment_slot(index as nat, text@.subrange(from as int, to as int)) == Ok::<
                Slot,
                Seq<char>,
            >(slot(t@)),
            Err(m) => segment_slot(index as nat, text@.subrange(from as int, to as int)) == Err::<
                Slot,
                Seq<char>,
            >(m@),
        },
{
    let segment = vstd::slice::slice_subrange(chars.as_slice(), from, to);
    let ghost pieces = crate::number::split(segment@, '-');
    let parts = split_bounds(segment, '-');
    if parts.len() < 3 || parts[0].0 == parts[0].1 || parts[1].0 == parts[1].1 || parts[2].0
        == parts[2].1 {
        return Err(message_with("invalid padding length/gap parameter: ", text, from, to));
    }
    let mut y: [i64; 3] = [0i64; 3];
    for k in 0..3usize
        invariant
            chars@ == text@,
            from <= to <= text@.len(),
            segment@ == text@.subrange(from as int, to as int),
            pieces == crate::number::split(segment@, '-'),
            pieces.len() == parts@.len() >= 3,
            pieces[0].len() > 0,
            pieces[1].len() > 0,
            pieces[2].len() > 0,
            forall|i: int|
                0 <= i < parts@.len() ==> (#[trigger] parts@[i]).0 <= parts@[i].1
                    <= segment@.len(),
            forall|i: int|
                0 <= i < parts@.len() ==> crate::number::stretch(segment@, #[trigger] parts@[i])
                    == pieces[i],
            forall|i: int|
                0 <= i < k ==> crate::number::number(#[trigger] pieces[i]) == Some(y@[i] as int),
    {
        let part = vstd::slice::slice_subrange(segment, parts[k].0, parts[k].1);
        assert(part@ == crate::number::stretch(segment@, parts@[k as int]));
        match parse_number(part) {
            Some(v) => {
                y[k] = v;
            },
            None => {
                assert(segment@.subrange(parts@[k as int].0 as int, parts@[k as int].1 as int)
                    =~= text@.subrange(from + parts@[k as int].0, from + parts@[k as int].1));
                return Err(
                    message_with(
                        "invalid padding number: ",
                        text,
                        from + parts[k].0,
                        from + parts[k].1,
                    ),
                );
            },
        }
    }
    if index == 0 && (y[0] < 100 || y[1] < MIN_FIRST_LEN || y[2] < MIN_FIRST_LEN) {
        return Err("first padding length must not be smaller than 35".to_owned());
    }
    Ok(y)
}

/// Once a segment is wrong, the segments after it do not matter.
proof fn lemma_first_error_stays(segments: Seq<Seq<char>>, k: nat, n: nat)
    requires
        k <= n,
        segments_schedule(segments, k) is Err,
    ensures
        segments_schedule(segments, n) == segments_schedule(segments, k),
    decreases n - k,
{
    if k < n {
        lemma_first_error_stays(segments, k, (n - 1) as nat);
    }
}

/// A segment that is read has no negative number: a dash separates, and so never
/// stands for a sign.
proof fn lemma_segment_in_range(index: nat, segment: Seq<char>)
    requires
        segment_slot(index, segment) is Ok,
    ensures
        slot_in_range(segment_slot(index, segment)->Ok_0),
{
    let parts = crate::number::split(segment, '-');
    crate::number::lemma_split_pieces(segment, '-');
    assert(parts[0][0] != '-');
    assert(parts[1][0] != '-');
    assert(parts[2][0] != '-');
}

/// The segments that are read so far have their numbers in range, and the first
/// is a length that is long enough.
proof fn lemma_segments_in_range(segments: Seq<Seq<char>>, n: nat)
    requires
        segments_schedule(segments, n) is Ok,
    ensures
        ({
            let s = segments_schedule(segments, n)->Ok_0;
            &&& forall|i: int| 0 <= i < s.lens.len() ==> slot_in_range(#[trigger] s.lens[i])
            &&& forall|i: int| 0 <= i < s.gaps.len() ==> slot_in_range(#[trigger] s.gaps[i])
            &&& n > 0 ==> s.lens.len() > 0
            &&& s.lens.len() > 0 ==> long_enough(s.lens[0])
        }),
    decreases n,
{
    if n > 0 {
        let i = (n - 1) as nat;
        lemma_segments_in_range(segments, i);
        lemma_segment_in_range(i, segments[i as int]);
    }
}

/// Every schedule that can be read is valid.
pub proof fn law_read_schedules_are_valid(text: Seq<char>)
    requires
        schedule_of(text) is Ok,
    ensures
        valid(schedule_of(text)->Ok_0),
{
    let segments = crate::number::split(text, '.');
    if text.len() > 0 {
        lemma_segments_in_range(segments, segments.len());
    }
}

/// Reads a schedule such as `100-111-1111.75-0-111.50-0-3333`: segments between
/// dots, lengths and gaps in turn, each with three numbers between dashes.
pub fn parse_padding(padding: &str) -> (result: Result<Padding, String>)
    ensures
        match result {
            Ok(p) => schedule_of(padding@) == Ok::<Schedule, Seq<char>>(p@) && valid(p@),
            Err(m) => schedule_of(padding@) == Err::<Schedule, Seq<char>>(m@),
        },
{
    if padding.is_empty() {
        return Ok(Padding::default());
    }
    let chars = chars_of(padding);
    let bounds = split_bounds(chars.as_slice(), '.');
    let ghost segments = crate::number::split(padding@, '.');
    let mut lens: Vec<[i64; 3]> = Vec::new();
    let mut gaps: Vec<[i64; 3]> = Vec::new();
    let mut max_len: i64 = 0;
    assert(slots(lens@) =~= Seq::<Slot>::empty());
    assert(slots(gaps@) =~= Seq::<Slot>::empty());
    for i in 0..bounds.len()
        invariant
            chars@ == padding@,
            segments == crate::number::split(padding@, '.'),
            segments.len() == bounds@.len(),
            forall|k: int|
                0 <= k < bounds@.len() ==> (#[trigger] bounds@[k]).0 <= bounds@[k].1
                    <= padding@.len(),
            forall|k: int|
                0 <= k < bounds@.len() ==> crate::number::stretch(padding@, #[trigger] bounds@[k])
                    == segments[k],
            padding@.len() > 0,
            segments_schedule(segments, i as nat) == Ok::<Schedule, Seq<char>>(
                Schedule { lens: slots(lens@), gaps: slots(gaps@) },
            ),
            max_len == if total(slots(lens@)) < i64::MAX {
                total(slots(lens@))
            } else {
                i64::MAX as int
            },
            0 <= max_len,
    {
        let ghost lens_before = lens@;
        let ghost gaps_before = gaps@;
        assert(crate::number::stretch(padding@, bounds@[i as int]) == segments[i as int]);
        match parse_segment(padding, &chars, i, bounds[i].0, bounds[i].1) {
            Ok(y) => {
                proof {
                    lemma_segment_in_range(i as nat, segments[i as int]);
                }
                if i % 2 == 0 {
                    lens.push(y);
                    let larger: i64 = if y[1] > y[2] {
                        y[1]
                    } else {
                        y[2]
                    };
                    max_len = if larger > i64::MAX - max_len {
                        i64::MAX
                    } else {
                        max_len + larger
                    };
                    assert(slots(lens@) =~= slots(lens_before).push(slot(y@)));
                    assert(slots(lens@).drop_last() =~= slots(lens_before));
                } else {
                    gaps.push(y);
                    assert(slots(gaps@) =~= slots(gaps_before).push(slot(y@)));
                }
            },
            Err(message) => {
                proof {
                    lemma_first_error_stays(segments, (i + 1) as nat, segments.len());
                }
                return Err(message);
            },
        }
    }
    proof {
        lemma_segments_in_range(segments, segments.len());
    }
    if max_len > MAX_TOTAL_LEN {
        return Err("total padding length must not be larger than 65553".to_owned());
    }
    Ok(Padding { lens, gaps })
}

/// The schedule that stands in for an empty one.
pub open spec fn default_schedule() -> Schedule {
    Schedule {
        lens: seq![
            Slot { chance: 100, from: 111, to: 1111 },
            Slot { chance: 50, from: 0, to: 3333 },
        ],
        gaps: seq![Slot { chance: 75, from: 0, to: 111 }],
    }
}

/// The schedule that padding is made by: the given one, or the default where it
/// has no lengths.
pub open spec fn effective(s: Schedule) -> Schedule {
    if s.lens.len() == 0 {
        default_schedule()
    } else {
        s
    }
}

/// The schedule that padding is made by.
fn effective_padding(p: &Padding) -> (e: Padding)
    ensures
        e@ == effective(p@),
{
    if p.lens.len() > 0 {
        return p.clone();
    }
    let lens: Vec<[i64; 3]> = vec![[100i64, 111, 1111], [50i64, 0, 3333]];
    let gaps: Vec<[i64; 3]> = vec![[75i64, 0, 111]];
    proof {
        assert(slots(lens@) =~= default_schedule().lens);
        assert(slots(gaps@) =~= default_schedule().gaps);
        law_default_schedule_is_valid();
    }
    Padding { lens, gaps }
}

/// `v` is a value from `from` up to but not including `to`, or `from` itself
/// where that range is empty.
pub open spec fn in_between(from: int, to: int, v: int) -> bool {
    if to <= from {
        v == from
    } else {
        from <= v < to
    }
}

/// Calls `rand::random::<u64>`. Claims nothing: any number may come back. The
/// crate panics where the machine gives it no randomness to start from.
#[verifier::external_body]
fn random_u64() -> u64 {
    rand::random::<u64>()
}

/// The value in the range from `from` up to `to` that the number `draw` picks.
pub fn between(from: i64, to: i64, draw: u64) -> (v: i64)
    requires
        to - from <= i64::MAX,
    ensures
        v == if to <= from {
            from as int
        } else {
            from + draw as int % (to - from)
        },
        in_between(from as int, to as int, v as int),
{
    if to <= from {
        return from;
    }
    let span: u64 = (to - from) as u64;
    let step: i64 = (draw % span) as i64;
    from + step
}

/// A random value from `from` up to but not including `to`, or `from` where that
/// range is empty.
pub fn rand_between(from: i64, to: i64) -> (v: i64)
    requires
        to - from <= i64::MAX,
    ensures
        in_between(from as int, to as int, v as int),
        to <= from ==> v == from,
        from < to ==> from <= v < to,
{
    between(from, to, random_u64())
}

/// What chance gave for one slot: a percentage, and a value in its range.
pub struct Draw {
    pub chance: i64,
    pub value: i64,
}

/// What a slot gives for a draw: the value where the slot is used, else zero.
pub open spec fn outcome(s: Slot, d: Draw) -> int {
    if s.chance >= d.chance {
        d.value as int
    } else {
        0
    }
}

/// The value of the slot's range that the number `word` picks.
pub open spec fn picked(s: Slot, word: u64) -> int {
    if s.to <= s.from {
        s.from
    } else {
        s.from + word as int % (s.to - s.from)
    }
}

/// What a slot gives for two numbers: the first tells the percentage, the second
/// picks the value.
pub open spec fn given(s: Slot, words: (u64, u64)) -> int {
    if s.chance >= words.0 % 100 {
        picked(s, words.1)
    } else {
        0
    }
}

/// `length`, `lens` and `gaps` are the padding of schedule `s` for these numbers,
/// two for each slot.
pub open spec fn padding_given(
    s: Schedule,
    len_words: Seq<(u64, u64)>,
    gap_words: Seq<(u64, u64)>,
    length: nat,
    lens: Seq<usize>,
    gaps: Seq<u64>,
) -> bool {
    &&& lens.len() == s.lens.len()
    &&& forall|i: int| 0 <= i < lens.len() ==> #[trigger] lens[i] == given(s.lens[i], len_words[i])
    &&& gaps.len() == s.gaps.len()
    &&& forall|i: int| 0 <= i < gaps.len() ==> #[trigger] gaps[i] == given(s.gaps[i], gap_words[i])
    &&& length == sum(lens)
}

/// There is a draw for every slot, with a value in its range.
pub open spec fn draws_fit(slots: Seq<Slot>, draws: Seq<Draw>) -> bool {
    &&& draws.len() == slots.len()
    &&& forall|i: int|
        0 <= i < slots.len() ==> in_between(
            (#[trigger] slots[i]).from,
            slots[i].to,
            draws[i].value as int,
        )
}

/// The sum of a run of lengths.
pub open spec fn sum(lens: Seq<usize>) -> nat
    decreases lens.len(),
{
    if lens.len() == 0 {
        0
    } else {
        sum(lens.drop_last()) + lens.last() as nat
    }
}

/// `length`, `lens` and `gaps` are the padding of schedule `s` for these draws:
/// the total, the length of each fragment and the gap after it in milliseconds.
pub open spec fn planned(
    s: Schedule,
    len_draws: Seq<Draw>,
    gap_draws: Seq<Draw>,
    length: nat,
    lens: Seq<usize>,
    gaps: Seq<u64>,
) -> bool {
    &&& lens.len() == s.lens.len()
    &&& forall|i: int| 0 <= i < lens.len() ==> #[trigger] lens[i] == outcome(s.lens[i], len_draws[i])
    &&& gaps.len() == s.gaps.len()
    &&& forall|i: int| 0 <= i < gaps.len() ==> #[trigger] gaps[i] == outcome(s.gaps[i], gap_draws[i])
    &&& length == sum(lens)
}

/// `v` is something that the slot can give: some percentage below a hundred and
/// some value of its range lead to it.
pub open spec fn possible(s: Slot, v: int) -> bool {
    exists|d: Draw|
        0 <= d.chance < 100 && in_between(s.from, s.to, d.value as int) && v == #[trigger] outcome(
            s,
            d,
        )
}

/// The fragments and gaps are ones that the schedule can give, and the total is
/// theirs.
pub open spec fn possible_padding(
    s: Schedule,
    length: nat,
    lens: Seq<usize>,
    gaps: Seq<u64>,
) -> bool {
    &&& lens.len() == s.lens.len()
    &&& forall|i: int| 0 <= i < lens.len() ==> possible(s.lens[i], #[trigger] lens[i] as int)
    &&& gaps.len() == s.gaps.len()
    &&& forall|i: int| 0 <= i < gaps.len() ==> possible(s.gaps[i], #[trigger] gaps[i] as int)
    &&& length == sum(lens)
}

/// The larger bounds of some of the slots are no more than those of all.
proof fn lemma_total_grows(lens: Seq<Slot>, n: int)
    requires
        0 <= n <= lens.len(),
        forall|i: int| 0 <= i < lens.len() ==> slot_in_range(#[trigger] lens[i]),
    ensures
        0 <= total(lens.take(n)) <= total(lens),
    decreases lens.len(),
{
    if n == lens.len() {
        assert(lens.take(n) =~= lens);
        if n > 0 {
            lemma_total_grows(lens.drop_last(), n - 1);
        }
    } else {
        lemma_total_grows(lens.drop_last(), n);
        assert(lens.drop_last().take(n) =~= lens.take(n));
    }
}

/// The padding that `p` gives for these draws: the total length, the length of
/// each fragment and the gaps between them in milliseconds.
pub fn plan_padding(p: &Padding, len_draws: &Vec<Draw>, gap_draws: &Vec<Draw>) -> (plan: (
    usize,
    Vec<usize>,
    Vec<u64>,
))
    requires
        draws_fit(effective(p@).lens, len_draws@),
        draws_fit(effective(p@).gaps, gap_draws@),
    ensures
        planned(effective(p@), len_draws@, gap_draws@, plan.0 as nat, plan.1@, plan.2@),
{
    let e = effective_padding(p);
    let ghost s = e@;
    proof {
        use_type_invariant(&e);
    }
    let mut lens: Vec<usize> = Vec::new();
    let mut length: usize = 0;
    assert(s.lens.take(0) =~= Seq::<Slot>::empty());
    for i in 0..e.lens.len()
        invariant
            s == e@,
            valid(s),
            draws_fit(s.lens, len_draws@),
            lens@.len() == i,
            forall|k: int|
                0 <= k < i ==> #[trigger] lens@[k] == outcome(s.lens[k], len_draws@[k]),
            length == sum(lens@),
            length <= total(s.lens.take(i as int)),
    {
        let ghost before = lens@;
        assert(s.lens[i as int] == slot(e.lens@[i as int]@));
        assert(slot_in_range(s.lens[i as int]));
        proof {
            lemma_total_grows(s.lens, i + 1);
            assert(s.lens.take(i + 1).drop_last() =~= s.lens.take(i as int));
        }
        let l: i64 = if e.lens[i][0] >= len_draws[i].chance {
            len_draws[i].value
        } else {
            0
        };
        lens.push(l as usize);
        length = length + l as usize;
        assert(lens@.drop_last() =~= before);
    }
    let mut gaps: Vec<u64> = Vec::new();
    for i in 0..e.gaps.len()
        invariant
            s == e@,
            valid(s),
            draws_fit(s.gaps, gap_draws@),
            gaps@.len() == i,
            forall|k: int|
                0 <= k < i ==> #[trigger] gaps@[k] == outcome(s.gaps[k], gap_draws@[k]),
    {
        assert(s.gaps[i as int] == slot(e.gaps@[i as int]@));
        assert(slot_in_range(s.gaps[i as int]));
        let g: i64 = if e.gaps[i][0] >= gap_draws[i].chance {
            gap_draws[i].value
        } else {
            0
        };
        gaps.push(g as u64);
    }
    (length, lens, gaps)
}

/// The draw that two numbers make for a triple. A slot that is not used needs no
/// value: its draw holds the lower bound.
pub fn draw_for(triple: &[i64; 3], chance_word: u64, value_word: u64) -> (d: Draw)
    requires
        slot_in_range(slot(triple@)),
    ensures
        d.chance == chance_word % 100,
        d.value == if triple@[0] >= chance_word % 100 {
            picked(slot(triple@), value_word)
        } else {
            triple@[1] as int
        },
        in_between(triple@[1] as int, triple@[2] as int, d.value as int),
        d.value == if triple@[0] >= chance_word % 100 && triple@[1] < triple@[2] {
            triple@[1] + value_word as int % (triple@[2] - triple@[1])
        } else {
            triple@[1] as int
        },
{
    let chance: i64 = between(0, 100, chance_word);
    let value: i64 = if triple[0] >= chance {
        between(triple[1], triple[2], value_word)
    } else {
        triple[1]
    };
    Draw { chance, value }
}

/// The draws that two numbers for each triple make.
fn draw_all(triples: &Vec<[i64; 3]>, words: &Vec<(u64, u64)>) -> (draws: Vec<Draw>)
    requires
        words@.len() == triples@.len(),
        forall|i: int| 0 <= i < triples@.len() ==> slot_in_range(slot((#[trigger] triples@[i])@)),
    ensures
        draws_fit(slots(triples@), draws@),
        forall|i: int|
            0 <= i < draws@.len() ==> outcome(slots(triples@)[i], #[trigger] draws@[i]) == given(
                slots(triples@)[i],
                words@[i],
            ),
{
    let mut draws: Vec<Draw> = Vec::new();
    for i in 0..triples.len()
        invariant
            words@.len() == triples@.len(),
            forall|k: int|
                0 <= k < triples@.len() ==> slot_in_range(slot((#[trigger] triples@[k])@)),
            draws@.len() == i,
            draws_fit(slots(triples@).take(i as int), draws@),
            forall|k: int|
                0 <= k < i ==> outcome(slots(triples@)[k], #[trigger] draws@[k]) == given(
                    slots(triples@)[k],
                    words@[k],
                ),
    {
        let ghost before = draws@;
        assert(slot_in_range(slot(triples@[i as int]@)));
        draws.push(draw_for(&triples[i], words[i].0, words[i].1));
        assert forall|k: int| 0 <= k < i + 1 implies in_between(
            (#[trigger] slots(triples@).take(i + 1)[k]).from,
            slots(triples@).take(i + 1)[k].to,
            draws@[k].value as int,
        ) by {
            if k < i {
                assert(draws@[k] == before[k]);
                assert(slots(triples@).take(i + 1)[k] == slots(triples@).take(i as int)[k]);
            }
        }
    }
    assert(slots(triples@).take(triples@.len() as int) =~= slots(triples@));
    draws
}

/// The padding that `p` gives for these numbers, two for each slot: the total
/// length, the length of each fragment and the gaps between them in
/// milliseconds.
pub fn padding_for(
    p: &Padding,
    len_words: &Vec<(u64, u64)>,
    gap_words: &Vec<(u64, u64)>,
) -> (padding: (usize, Vec<usize>, Vec<u64>))
    requires
        len_words@.len() == effective(p@).lens.len(),
        gap_words@.len() == effective(p@).gaps.len(),
    ensures
        padding_given(
            effective(p@),
            len_words@,
            gap_words@,
            padding.0 as nat,
            padding.1@,
            padding.2@,
        ),
{
    let e = effective_padding(p);
    let ghost s = e@;
    proof {
        use_type_invariant(&e);
        assert forall|i: int| 0 <= i < e.lens@.len() implies slot_in_range(
            slot((#[trigger] e.lens@[i])@),
        ) by {
            assert(s.lens[i] == slot(e.lens@[i]@));
        }
        assert forall|i: int| 0 <= i < e.gaps@.len() implies slot_in_range(
            slot((#[trigger] e.gaps@[i])@),
        ) by {
            assert(s.gaps[i] == slot(e.gaps@[i]@));
        }
    }
    let len_draws = draw_all(&e.lens, len_words);
    let gap_draws = draw_all(&e.gaps, gap_words);
    let padding = plan_padding(&e, &len_draws, &gap_draws);
    proof {
        assert forall|i: int| 0 <= i < padding.1@.len() implies #[trigger] padding.1@[i] == given(
            s.lens[i],
            len_words@[i],
        ) by {
            assert(outcome(s.lens[i], len_draws@[i]) == given(s.lens[i], len_words@[i]));
        }
        assert forall|i: int| 0 <= i < padding.2@.len() implies #[trigger] padding.2@[i] == given(
            s.gaps[i],
            gap_words@[i],
        ) by {
            assert(outcome(s.gaps[i], gap_draws@[i]) == given(s.gaps[i], gap_words@[i]));
        }
    }
    padding
}

/// Two random numbers for each of `n` slots.
fn random_words(n: usize) -> (words: Vec<(u64, u64)>)
    ensures
        words@.len() == n,
{
    let mut words: Vec<(u64, u64)> = Vec::new();
    for i in 0..n
        invariant
            words@.len() == i,
    {
        words.push((random_u64(), random_u64()));
    }
    words
}

/// Random padding by the schedule `p`: the total length, the length of each
/// fragment and the gaps between them in milliseconds. The peer learns the
/// length from an encrypted prefix, so any outcome will do.
pub fn create_padding(p: &Padding) -> (padding: (usize, Vec<usize>, Vec<u64>))
    ensures
        possible_padding(effective(p@), padding.0 as nat, padding.1@, padding.2@),
        padding.0 == sum(padding.1@),
        padding.0 <= 65553,
        padding.1@.len() == effective(p@).lens.len(),
        padding.2@.len() == effective(p@).gaps.len(),
        padding.1@.len() > 0 && padding.1@[0] >= 35,
        forall|i: int|
            0 <= i < padding.1@.len() ==> {
                let s = effective(p@).lens[i];
                ||| s.from <= #[trigger] padding.1@[i] < s.to
                ||| s.to <= s.from && padding.1@[i] == s.from
                ||| s.chance < 99 && padding.1@[i] == 0
            },
        forall|i: int|
            0 <= i < padding.2@.len() ==> {
                let s = effective(p@).gaps[i];
                ||| s.from <= #[trigger] padding.2@[i] < s.to
                ||| s.to <= s.from && padding.2@[i] == s.from
                ||| s.chance < 99 && padding.2@[i] == 0
            },
{
    let e = effective_padding(p);
    proof {
        use_type_invariant(&e);
    }
    let len_words = random_words(e.lens.len());
    let gap_words = random_words(e.gaps.len());
    let padding = padding_for(&e, &len_words, &gap_words);
    proof {
        law_given_padding_is_possible(
            e@,
            len_words@,
            gap_words@,
            padding.0 as nat,
            padding.1@,
            padding.2@,
        );
        law_random_padding_is_in_range(e@, padding.0 as nat, padding.1@, padding.2@);
        law_total_is_bounded(e@, padding.0 as nat, padding.1@, padding.2@);
        law_first_length_is_long_enough(e@, padding.0 as nat, padding.1@, padding.2@);
    }
    padding
}

/// What two numbers give for a slot is something that the slot can give.
proof fn lemma_given_is_possible(s: Slot, words: (u64, u64))
    requires
        slot_in_range(s),
    ensures
        possible(s, given(s, words)),
{
    let value = picked(s, words.1);
    let d = Draw { chance: (words.0 % 100) as i64, value: value as i64 };
    assert(given(s, words) == outcome(s, d));
}

/// Whatever the numbers are, the padding that they give is one that the schedule
/// can give.
pub proof fn law_given_padding_is_possible(
    s: Schedule,
    len_words: Seq<(u64, u64)>,
    gap_words: Seq<(u64, u64)>,
    length: nat,
    lens: Seq<usize>,
    gaps: Seq<u64>,
)
    requires
        valid(s),
        padding_given(s, len_words, gap_words, length, lens, gaps),
    ensures
        possible_padding(s, length, lens, gaps),
{
    assert forall|i: int| 0 <= i < lens.len() implies possible(
        s.lens[i],
        #[trigger] lens[i] as int,
    ) by {
        lemma_given_is_possible(s.lens[i], len_words[i]);
    }
    assert forall|i: int| 0 <= i < gaps.len() implies possible(
        s.gaps[i],
        #[trigger] gaps[i] as int,
    ) by {
        lemma_given_is_possible(s.gaps[i], gap_words[i]);
    }
}

/// What a slot can give: a value of its range, unless its chance is negative,
/// and also zero where its chance is below ninety-nine.
pub proof fn law_possible_values(s: Slot, v: int)
    requires
        i64::MIN <= s.from <= i64::MAX,
        i64::MIN <= s.to <= i64::MAX,
    ensures
        possible(s, v) <==> (s.chance >= 0 && in_between(s.from, s.to, v)) || (s.chance < 99 && v
            == 0),
{
    if s.chance >= 0 && in_between(s.from, s.to, v) {
        let d = Draw { chance: 0, value: v as i64 };
        assert(v == outcome(s, d));
    } else if s.chance < 99 && v == 0 {
        let d = Draw { chance: 99, value: s.from as i64 };
        assert(v == outcome(s, d));
    }
}

/// The default schedule is one that could have been read.
pub proof fn law_default_schedule_is_valid()
    ensures
        valid(default_schedule()),
        total(default_schedule().lens) == 4444,
{
    reveal_with_fuel(total, 3);
    assert(default_schedule().lens.drop_last() =~= seq![default_schedule().lens[0]]);
}

/// Padding is never longer in all than the larger bounds of its schedule allow,
/// so never longer than the limit.
pub proof fn law_total_is_bounded(s: Schedule, length: nat, lens: Seq<usize>, gaps: Seq<u64>)
    requires
        valid(s),
        possible_padding(effective(s), length, lens, gaps),
    ensures
        length <= total(effective(s).lens),
        length <= MAX_TOTAL_LEN,
{
    law_default_schedule_is_valid();
    let slots = effective(s).lens;
    lemma_sum_is_bounded(slots, lens);
}

/// Lengths that their slots can give sum up to no more than the larger bounds.
proof fn lemma_sum_is_bounded(slots: Seq<Slot>, lens: Seq<usize>)
    requires
        lens.len() == slots.len(),
        forall|i: int| 0 <= i < slots.len() ==> slot_in_range(#[trigger] slots[i]),
        forall|i: int| 0 <= i < lens.len() ==> possible(slots[i], #[trigger] lens[i] as int),
    ensures
        sum(lens) <= total(slots),
    decreases lens.len(),
{
    if lens.len() > 0 {
        let last = lens.len() - 1;
        lemma_sum_is_bounded(slots.drop_last(), lens.drop_last());
        law_possible_values(slots[last], lens[last] as int);
        assert(possible(slots[last], lens[last] as int));
        assert(slot_in_range(slots[last]));
    }
}

/// There always is a first fragment, and it is never shorter than the shortest
/// first padding.
pub proof fn law_first_length_is_long_enough(
    s: Schedule,
    length: nat,
    lens: Seq<usize>,
    gaps: Seq<u64>,
)
    requires
        valid(s),
        possible_padding(effective(s), length, lens, gaps),
    ensures
        lens.len() > 0,
        lens[0] >= MIN_FIRST_LEN,
{
    law_default_schedule_is_valid();
    let first = effective(s).lens[0];
    assert(slot_in_range(first));
    law_possible_values(first, lens[0] as int);
    assert(possible(first, lens[0] as int));
}

/// Lengths and gaps take turns in the text, starting with a length: a schedule
/// that was read has as many gaps as lengths, or one less.
pub proof fn law_lengths_and_gaps_take_turns(text: Seq<char>)
    requires
        text.len() > 0,
        schedule_of(text) is Ok,
    ensures
        schedule_of(text)->Ok_0.lens.len() == (crate::number::split(text, '.').len() + 1) / 2,
        schedule_of(text)->Ok_0.gaps.len() == crate::number::split(text, '.').len() / 2,
{
    let segments = crate::number::split(text, '.');
    lemma_turns(segments, segments.len());
}

/// The same for the first `n` segments.
proof fn lemma_turns(segments: Seq<Seq<char>>, n: nat)
    requires
        segments_schedule(segments, n) is Ok,
    ensures
        segments_schedule(segments, n)->Ok_0.lens.len() == (n + 1) / 2,
        segments_schedule(segments, n)->Ok_0.gaps.len() == n / 2,
    decreases n,
{
    if n > 0 {
        lemma_turns(segments, (n - 1) as nat);
    }
}

/// The empty text is a schedule without lengths and gaps.
pub proof fn law_empty_text()
    ensures
        schedule_of(Seq::empty()) matches Ok(s) && s.lens.len() == 0 && s.gaps.len() == 0,
{
}

/// Where a text is accepted, the first three pieces between dashes of its segment
/// number `i` write the chance and the two bounds of one slot: length number
/// `i / 2` for an even segment, gap number `i / 2` for an odd one.
pub proof fn law_segments_write_the_slots(text: Seq<char>, i: int)
    requires
        text.len() > 0,
        schedule_of(text) is Ok,
        0 <= i < crate::number::split(text, '.').len(),
    ensures
        ({
            let s = schedule_of(text)->Ok_0;
            let parts = crate::number::split(crate::number::split(text, '.')[i], '-');
            let slot = if i % 2 == 0 {
                s.lens[i / 2]
            } else {
                s.gaps[i / 2]
            };
            &&& parts.len() >= 3
            &&& crate::number::number(parts[0]) == Some(slot.chance)
            &&& crate::number::number(parts[1]) == Some(slot.from)
            &&& crate::number::number(parts[2]) == Some(slot.to)
        }),
{
    let segments = crate::number::split(text, '.');
    lemma_slot_of_segment(segments, segments.len(), i);
    law_lengths_and_gaps_take_turns(text);
}

/// The slot of segment `i` is where the turns put it.
proof fn lemma_slot_of_segment(segments: Seq<Seq<char>>, n: nat, i: int)
    requires
        0 <= i < n,
        segments_schedule(segments, n) is Ok,
    ensures
        ({
            let s = segments_schedule(segments, n)->Ok_0;
            segment_slot(i as nat, segments[i]) == Ok::<Slot, Seq<char>>(
                if i % 2 == 0 {
                    s.lens[i / 2]
                } else {
                    s.gaps[i / 2]
                },
            )
        }),
    decreases n,
{
    lemma_turns(segments, (n - 1) as nat);
    if i < n - 1 {
        lemma_slot_of_segment(segments, (n - 1) as nat, i);
    }
}

/// The slot that segment `i` of a schedule's text describes.
spec fn slot_in_turn(s: Schedule, i: int) -> Slot {
    if i % 2 == 0 {
        s.lens[i / 2]
    } else {
        s.gaps[i / 2]
    }
}

/// Segments that describe the slots of a schedule in turn are read as its first
/// lengths and gaps.
proof fn lemma_segments_give(segments: Seq<Seq<char>>, s: Schedule, n: nat)
    requires
        (n + 1) / 2 <= s.lens.len(),
        n / 2 <= s.gaps.len(),
        forall|i: int|
            0 <= i < n ==> segment_slot(i as nat, #[trigger] segments[i]) == Ok::<Slot, Seq<char>>(
                slot_in_turn(s, i),
            ),
    ensures
        segments_schedule(segments, n) == Ok::<Schedule, Seq<char>>(
            Schedule { lens: s.lens.take(((n + 1) / 2) as int), gaps: s.gaps.take((n / 2) as int) },
        ),
    decreases n,
{
    let lens = s.lens.take(((n + 1) / 2) as int);
    let gaps = s.gaps.take((n / 2) as int);
    if n == 0 {
        assert(lens =~= Seq::<Slot>::empty());
        assert(gaps =~= Seq::<Slot>::empty());
    } else {
        let i = n - 1;
        lemma_segments_give(segments, s, i as nat);
        let lens_before = s.lens.take(((i + 1) / 2) as int);
        let gaps_before = s.gaps.take((i / 2) as int);
        assert(segment_slot(i as nat, segments[i]) == Ok::<Slot, Seq<char>>(slot_in_turn(s, i)));
        if i % 2 == 0 {
            assert(lens =~= lens_before.push(s.lens[i / 2]));
            assert(gaps =~= gaps_before);
        } else {
            assert(gaps =~= gaps_before.push(s.gaps[i / 2]));
            assert(lens =~= lens_before);
        }
    }
}

/// The schedule that triples of numbers make in turn.
spec fn in_turn(values: Seq<(int, int, int)>) -> Schedule {
    Schedule {
        lens: Seq::new(
            ((values.len() + 1) / 2) as nat,
            |k: int|
                Slot { chance: values[2 * k].0, from: values[2 * k].1, to: values[2 * k].2 },
        ),
        gaps: Seq::new(
            (values.len() / 2) as nat,
            |k: int|
                Slot {
                    chance: values[2 * k + 1].0,
                    from: values[2 * k + 1].1,
                    to: values[2 * k + 1].2,
                },
        ),
    }
}

/// A segment whose first three pieces write numbers describes them.
proof fn lemma_segment_of_numbers(index: nat, segment: Seq<char>, v: (int, int, int))
    requires
        crate::number::split(segment, '-').len() >= 3,
        crate::number::number(crate::number::split(segment, '-')[0]) == Some(v.0),
        crate::number::number(crate::number::split(segment, '-')[1]) == Some(v.1),
        crate::number::number(crate::number::split(segment, '-')[2]) == Some(v.2),
        index == 0 ==> v.0 >= 100 && v.1 >= 35 && v.2 >= 35,
    ensures
        segment_slot(index, segment) == Ok::<Slot, Seq<char>>(
            Slot { chance: v.0, from: v.1, to: v.2 },
        ),
{
    let parts = crate::number::split(segment, '-');
    crate::number::law_only_digits_are_numbers(parts[0]);
    crate::number::law_only_digits_are_numbers(parts[1]);
    crate::number::law_only_digits_are_numbers(parts[2]);
}

/// What the larger bounds add up to: nothing for no slot, and a slot behind others
/// adds the larger one of its two bounds.
pub proof fn law_larger_bounds_add_up(lens: Seq<Slot>, s: Slot)
    ensures
        total(Seq::empty()) == 0,
        total(lens.push(s)) == total(lens) + vstd::math::max(s.from, s.to),
{
    assert(lens.push(s).drop_last() =~= lens);
}

/// A text whose segments write the slots of `s`, lengths and gaps in turn, three
/// numbers each, is read as exactly `s`, as long as its first slot is at least 100,
/// 35 and 35 and the larger bounds of its lengths add up to no more than 65553.
/// Where they add up to more, it is rejected.
pub proof fn law_numbers_make_the_schedule(text: Seq<char>, s: Schedule)
    requires
        text.len() > 0,
        s.lens.len() == (crate::number::split(text, '.').len() + 1) / 2,
        s.gaps.len() == crate::number::split(text, '.').len() / 2,
        forall|i: int|
            0 <= i < crate::number::split(text, '.').len() ==> {
                let parts = crate::number::split(#[trigger] crate::number::split(text, '.')[i], '-');
                let slot = if i % 2 == 0 {
                    s.lens[i / 2]
                } else {
                    s.gaps[i / 2]
                };
                &&& parts.len() >= 3
                &&& crate::number::number(parts[0]) == Some(slot.chance)
                &&& crate::number::number(parts[1]) == Some(slot.from)
                &&& crate::number::number(parts[2]) == Some(slot.to)
            },
        s.lens[0].chance >= 100,
        s.lens[0].from >= 35,
        s.lens[0].to >= 35,
    ensures
        total(s.lens) <= 65553 ==> schedule_of(text) == Ok::<Schedule, Seq<char>>(s),
        total(s.lens) > 65553 ==> schedule_of(text) == Err::<Schedule, Seq<char>>(
            "total padding length must not be larger than 65553"@,
        ),
{
    let segments = crate::number::split(text, '.');
    let n = segments.len();
    assert forall|i: int| 0 <= i < n implies segment_slot(i as nat, #[trigger] segments[i]) == Ok::<
        Slot,
        Seq<char>,
    >(slot_in_turn(s, i)) by {
        let slot = slot_in_turn(s, i);
        lemma_segment_of_numbers(i as nat, segments[i], (slot.chance, slot.from, slot.to));
    }
    lemma_segments_give(segments, s, n);
    assert(s.lens.take(((n + 1) / 2) as int) =~= s.lens);
    assert(s.gaps.take((n / 2) as int) =~= s.gaps);
}

/// The first segment that is wrong decides the message: too few pieces between
/// dashes or an empty one among the first three, then the first of the three that
/// is no number, then a first triple below 100, 35 and 35. `values` are the numbers
/// of the segments before it.
pub proof fn law_first_wrong_segment_decides(
    text: Seq<char>,
    values: Seq<(int, int, int)>,
    wrong: int,
)
    requires
        text.len() > 0,
        0 <= wrong < crate::number::split(text, '.').len(),
        values.len() == wrong,
        forall|i: int|
            0 <= i < values.len() ==> {
                let parts = crate::number::split(crate::number::split(text, '.')[i], '-');
                &&& parts.len() >= 3
                &&& crate::number::number(parts[0]) == Some((#[trigger] values[i]).0)
                &&& crate::number::number(parts[1]) == Some(values[i].1)
                &&& crate::number::number(parts[2]) == Some(values[i].2)
            },
        wrong > 0 ==> values[0].0 >= 100 && values[0].1 >= 35 && values[0].2 >= 35,
    ensures
        ({
            let segment = crate::number::split(text, '.')[wrong];
            let parts = crate::number::split(segment, '-');
            let result = schedule_of(text);
            let whole = parts.len() >= 3 && parts[0].len() > 0 && parts[1].len() > 0
                && parts[2].len() > 0;
            let a = crate::number::number(parts[0]);
            let b = crate::number::number(parts[1]);
            let c = crate::number::number(parts[2]);
            &&& !whole ==> result == Err::<Schedule, Seq<char>>(
                "invalid padding length/gap parameter: "@ + segment,
            )
            &&& whole && a is None ==> result == Err::<Schedule, Seq<char>>(
                "invalid padding number: "@ + parts[0],
            )
            &&& whole && a is Some && b is None ==> result == Err::<Schedule, Seq<char>>(
                "invalid padding number: "@ + parts[1],
            )
            &&& whole && a is Some && b is Some && c is None ==> result == Err::<
                Schedule,
                Seq<char>,
            >("invalid padding number: "@ + parts[2])
            &&& whole && a is Some && b is Some && c is Some && wrong == 0 && (a->0 < 100 || b->0
                < 35 || c->0 < 35) ==> result == Err::<Schedule, Seq<char>>(
                "first padding length must not be smaller than 35"@,
            )
        }),
{
    let segments = crate::number::split(text, '.');
    let s = in_turn(values);
    assert forall|i: int| 0 <= i < wrong implies segment_slot(i as nat, #[trigger] segments[i])
        == Ok::<Slot, Seq<char>>(slot_in_turn(s, i)) by {
        let v = values[i];
        lemma_segment_of_numbers(i as nat, segments[i], v);
    }
    lemma_segments_give(segments, s, wrong as nat);
    if segment_slot(wrong as nat, segments[wrong]) is Err {
        lemma_first_error_stays(segments, (wrong + 1) as nat, segments.len());
    }
}

/// A number written in decimal reads back as that number.
proof fn lemma_decimal_reads_back(n: int)
    requires
        0 <= n <= i64::MAX,
    ensures
        crate::number::number(crate::framing::decimal(n as nat)) == Some(n),
        !crate::framing::decimal(n as nat).contains('-'),
        !crate::framing::decimal(n as nat).contains('.'),
{
    let digits = crate::framing::decimal(n as nat);
    crate::framing::law_decimal_digits(n as nat);
    crate::number::law_numbers_are_read(digits);
    assert forall|c: char| digits.contains(c) implies '0' <= c <= '9' by {
        let k = choose|k: int| 0 <= k < digits.len() && digits[k] == c;
        assert('0' <= digits[k] <= '9');
    }
}

/// A slot written as three decimal numbers between dashes splits into them, and
/// holds no dot.
proof fn lemma_written_slot(s: Slot)
    requires
        slot_in_range(s),
    ensures
        ({
            let parts = seq![
                crate::framing::decimal(s.chance as nat),
                crate::framing::decimal(s.from as nat),
                crate::framing::decimal(s.to as nat),
            ];
            let segment = crate::number::joined(parts, '-');
            &&& crate::number::split(segment, '-') == parts
            &&& !segment.contains('.')
        }),
{
    let a = crate::framing::decimal(s.chance as nat);
    let b = crate::framing::decimal(s.from as nat);
    let c = crate::framing::decimal(s.to as nat);
    let parts = seq![a, b, c];
    lemma_decimal_reads_back(s.chance);
    lemma_decimal_reads_back(s.from);
    lemma_decimal_reads_back(s.to);
    crate::number::law_split_undoes_joining(parts, '-');
    crate::number::law_joining(seq![a], b, '-');
    crate::number::law_joining(seq![a, b], c, '-');
    crate::number::law_joining(Seq::empty(), a, '-');
    assert(seq![a].push(b) =~= seq![a, b]);
    assert(seq![a, b].push(c) =~= parts);
    let segment = crate::number::joined(parts, '-');
    assert(segment == a + seq!['-'] + b + seq!['-'] + c);
    if segment.contains('.') {
        let k = choose|k: int| 0 <= k < segment.len() && segment[k] == '.';
        let al = a.len() as int;
        let bl = b.len() as int;
        if k < al {
            assert(a[k] == '.');
        } else if k == al {
        } else if k < al + 1 + bl {
            assert(b[k - al - 1] == '.');
        } else if k == al + 1 + bl {
        } else {
            assert(c[k - al - bl - 2] == '.');
        }
    }
}

/// Writing a schedule as text and reading it gives the schedule back: each slot as
/// three decimal numbers between dashes, lengths and gaps in turn between dots.
pub proof fn law_written_schedules_read_back(s: Schedule, segments: Seq<Seq<char>>)
    requires
        valid(s),
        s.lens.len() > 0,
        segments.len() == s.lens.len() + s.gaps.len(),
        s.gaps.len() <= s.lens.len() <= s.gaps.len() + 1,
        forall|i: int|
            0 <= i < segments.len() ==> #[trigger] segments[i] == {
                let slot = if i % 2 == 0 {
                    s.lens[i / 2]
                } else {
                    s.gaps[i / 2]
                };
                crate::number::joined(
                    seq![
                        crate::framing::decimal(slot.chance as nat),
                        crate::framing::decimal(slot.from as nat),
                        crate::framing::decimal(slot.to as nat),
                    ],
                    '-',
                )
            },
    ensures
        schedule_of(crate::number::joined(segments, '.')) == Ok::<Schedule, Seq<char>>(s),
{
    let text = crate::number::joined(segments, '.');
    let n = segments.len();
    assert forall|i: int| 0 <= i < n implies !(#[trigger] segments[i]).contains('.')
        && segment_slot(i as nat, segments[i]) == Ok::<Slot, Seq<char>>(slot_in_turn(s, i)) by {
        let slot = slot_in_turn(s, i);
        assert(slot_in_range(slot));
        lemma_written_slot(slot);
        lemma_decimal_reads_back(slot.chance);
        lemma_decimal_reads_back(slot.from);
        lemma_decimal_reads_back(slot.to);
        if i == 0 {
            assert(long_enough(s.lens[0]));
        }
        lemma_segment_of_numbers(i as nat, segments[i], (slot.chance, slot.from, slot.to));
    }
    crate::number::law_split_undoes_joining(segments, '.');
    lemma_segments_give(segments, s, n);
    assert(s.lens.take(((n + 1) / 2) as int) =~= s.lens);
    assert(s.gaps.take((n / 2) as int) =~= s.gaps);
    if text.len() == 0 {
        assert(text =~= Seq::<char>::empty());
        assert(segments[0] == crate::number::split(text, '.')[0]);
        assert(segment_slot(0, segments[0]) is Ok);
        assert(segments[0].len() == 0);
        crate::number::lemma_split_pieces(segments[0], '-');
        assert(crate::number::split(segments[0], '-').len() == 1);
    }
}

/// A slot is in range where none of its numbers is negative or takes more than
/// sixty-three bits.
pub proof fn law_slots_in_range(s: Slot)
    ensures
        slot_in_range(s) <==> 0 <= s.chance <= 0x7FFF_FFFF_FFFF_FFFF && 0 <= s.from
            <= 0x7FFF_FFFF_FFFF_FFFF && 0 <= s.to <= 0x7FFF_FFFF_FFFF_FFFF,
{
}

/// Draws fit where there is one for every slot, and its value is from the lower
/// bound up to but not including the upper one, or the lower bound where there is
/// nothing between them.
pub proof fn law_fitting_draws(slots: Seq<Slot>, draws: Seq<Draw>)
    ensures
        draws_fit(slots, draws) <==> draws.len() == slots.len() && forall|i: int|
            0 <= i < draws.len() ==> {
                ||| slots[i].from <= (#[trigger] draws[i]).value < slots[i].to
                ||| slots[i].to <= slots[i].from && draws[i].value == slots[i].from
            },
{
    if draws_fit(slots, draws) {
        assert forall|i: int| 0 <= i < draws.len() implies {
            ||| slots[i].from <= (#[trigger] draws[i]).value < slots[i].to
            ||| slots[i].to <= slots[i].from && draws[i].value == slots[i].from
        } by {
            assert(in_between(slots[i].from, slots[i].to, draws[i].value as int));
        }
    }
}

/// What holds of a valid schedule, in numbers.
pub proof fn law_valid_schedules(s: Schedule)
    requires
        valid(s),
    ensures
        forall|i: int|
            0 <= i < s.lens.len() ==> {
                &&& 0 <= (#[trigger] s.lens[i]).chance <= 0x7FFF_FFFF_FFFF_FFFF
                &&& 0 <= s.lens[i].from <= 65553
                &&& 0 <= s.lens[i].to <= 65553
            },
        forall|i: int|
            0 <= i < s.gaps.len() ==> {
                &&& 0 <= (#[trigger] s.gaps[i]).chance <= 0x7FFF_FFFF_FFFF_FFFF
                &&& 0 <= s.gaps[i].from <= 0x7FFF_FFFF_FFFF_FFFF
                &&& 0 <= s.gaps[i].to <= 0x7FFF_FFFF_FFFF_FFFF
            },
        s.lens.len() > 0 ==> s.lens[0].chance >= 100 && s.lens[0].from >= 35 && s.lens[0].to >= 35,
{
    assert forall|i: int| 0 <= i < s.lens.len() implies {
        &&& 0 <= (#[trigger] s.lens[i]).chance <= 0x7FFF_FFFF_FFFF_FFFF
        &&& 0 <= s.lens[i].from <= 65553
        &&& 0 <= s.lens[i].to <= 65553
    } by {
        assert(slot_in_range(s.lens[i]));
        lemma_total_grows(s.lens, i + 1);
        lemma_total_grows(s.lens, i);
        assert(s.lens.take(i + 1).drop_last() =~= s.lens.take(i));
        assert(s.lens.take(i + 1).last() == s.lens[i]);
    }
    assert forall|i: int| 0 <= i < s.gaps.len() implies {
        &&& 0 <= (#[trigger] s.gaps[i]).chance <= 0x7FFF_FFFF_FFFF_FFFF
        &&& 0 <= s.gaps[i].from <= 0x7FFF_FFFF_FFFF_FFFF
        &&& 0 <= s.gaps[i].to <= 0x7FFF_FFFF_FFFF_FFFF
    } by {
        assert(slot_in_range(s.gaps[i]));
    }
}

/// Padding is made by the schedule itself where it has lengths, else by two lengths,
/// the first always from 111 up to 1111 and the second half of the time from 0 up
/// to 3333, with a gap from 0 up to 111 between them three times in four.
pub proof fn law_schedule_in_use(s: Schedule)
    ensures
        s.lens.len() > 0 ==> effective(s) == s,
        s.lens.len() == 0 ==> {
            let e = effective(s);
            &&& e.lens.len() == 2
            &&& e.lens[0].chance == 100 && e.lens[0].from == 111 && e.lens[0].to == 1111
            &&& e.lens[1].chance == 50 && e.lens[1].from == 0 && e.lens[1].to == 3333
            &&& e.gaps.len() == 1
            &&& e.gaps[0].chance == 75 && e.gaps[0].from == 0 && e.gaps[0].to == 111
        },
{
}

/// What adding up is: nothing for no length, and a length behind others is added
/// to their sum.
pub proof fn law_lengths_add_up(lens: Seq<usize>, len: usize)
    ensures
        sum(Seq::empty()) == 0,
        sum(lens.push(len)) == sum(lens) + len,
{
    assert(lens.push(len).drop_last() =~= lens);
}

/// Given two numbers for each slot, a slot is used where its chance is at least the
/// first number modulo 100. It then gives its lower bound plus the second number
/// modulo the width of its range, or the lower bound where the range is empty; one
/// that is not used gives zero.
pub proof fn law_padding_follows_the_numbers(
    s: Schedule,
    len_words: Seq<(u64, u64)>,
    gap_words: Seq<(u64, u64)>,
    length: nat,
    lens: Seq<usize>,
    gaps: Seq<u64>,
)
    requires
        padding_given(s, len_words, gap_words, length, lens, gaps),
    ensures
        length == sum(lens),
        lens.len() == s.lens.len(),
        gaps.len() == s.gaps.len(),
        forall|i: int|
            0 <= i < lens.len() ==> #[trigger] lens[i] == if s.lens[i].chance < len_words[i].0
                % 100 {
                0
            } else if s.lens[i].from < s.lens[i].to {
                s.lens[i].from + len_words[i].1 as int % (s.lens[i].to - s.lens[i].from)
            } else {
                s.lens[i].from
            },
        forall|i: int|
            0 <= i < gaps.len() ==> #[trigger] gaps[i] == if s.gaps[i].chance < gap_words[i].0
                % 100 {
                0
            } else if s.gaps[i].from < s.gaps[i].to {
                s.gaps[i].from + gap_words[i].1 as int % (s.gaps[i].to - s.gaps[i].from)
            } else {
                s.gaps[i].from
            },
{
}

/// Given a draw for each slot, a slot gives the drawn value where its chance is at
/// least the drawn percentage, else zero.
pub proof fn law_plan_follows_the_draws(
    s: Schedule,
    len_draws: Seq<Draw>,
    gap_draws: Seq<Draw>,
    length: nat,
    lens: Seq<usize>,
    gaps: Seq<u64>,
)
    requires
        planned(s, len_draws, gap_draws, length, lens, gaps),
    ensures
        length == sum(lens),
        lens.len() == s.lens.len(),
        gaps.len() == s.gaps.len(),
        forall|i: int|
            0 <= i < lens.len() ==> #[trigger] lens[i] == if s.lens[i].chance < len_draws[i].chance {
                0
            } else {
                len_draws[i].value as int
            },
        forall|i: int|
            0 <= i < gaps.len() ==> #[trigger] gaps[i] == if s.gaps[i].chance < gap_draws[i].chance {
                0
            } else {
                gap_draws[i].value as int
            },
{
}

/// Whatever chance gives: each length and gap is from the lower bound of its slot up
/// to but not including the upper one, or the lower bound where that range is empty,
/// or zero where the chance is below 99, and the lengths add up to the total.
pub proof fn law_random_padding_is_in_range(
    s: Schedule,
    length: nat,
    lens: Seq<usize>,
    gaps: Seq<u64>,
)
    requires
        valid(s),
        possible_padding(s, length, lens, gaps),
    ensures
        length == sum(lens),
        lens.len() == s.lens.len(),
        gaps.len() == s.gaps.len(),
        forall|i: int|
            0 <= i < lens.len() ==> {
                ||| s.lens[i].from <= #[trigger] lens[i] < s.lens[i].to
                ||| s.lens[i].to <= s.lens[i].from && lens[i] == s.lens[i].from
                ||| s.lens[i].chance < 99 && lens[i] == 0
            },
        forall|i: int|
            0 <= i < gaps.len() ==> {
                ||| s.gaps[i].from <= #[trigger] gaps[i] < s.gaps[i].to
                ||| s.gaps[i].to <= s.gaps[i].from && gaps[i] == s.gaps[i].from
                ||| s.gaps[i].chance < 99 && gaps[i] == 0
            },
{
    assert forall|i: int| 0 <= i < lens.len() implies {
        ||| s.lens[i].from <= #[trigger] lens[i] < s.lens[i].to
        ||| s.lens[i].to <= s.lens[i].from && lens[i] == s.lens[i].from
        ||| s.lens[i].chance < 99 && lens[i] == 0
    } by {
        assert(slot_in_range(s.lens[i]));
        law_possible_values(s.lens[i], lens[i] as int);
    }
    assert forall|i: int| 0 <= i < gaps.len() implies {
        ||| s.gaps[i].from <= #[trigger] gaps[i] < s.gaps[i].to
        ||| s.gaps[i].to <= s.gaps[i].from && gaps[i] == s.gaps[i].from
        ||| s.gaps[i].chance < 99 && gaps[i] == 0
    } by {
        assert(slot_in_range(s.gaps[i]));
        law_possible_values(s.gaps[i], gaps[i] as int);
    }
}

} // verus!
