//! osu!stable's `osu!.db`: the beatmaps that the game knows, read from the
//! bytes of the file.  Fields the library does not use are read and skipped.
//! Floating-point fields are kept as their IEEE-754 bit patterns.
use vstd::prelude::*;
use crate::binary::{
    read_agrees, read_bool, read_f32_bits, read_f64_bits, read_i16, read_i32, read_i64,
    read_osu_string, read_u8, spec_read_bool, spec_read_f32_bits,
    spec_read_f64_bits, spec_read_i16, spec_read_i32, spec_read_i64, spec_read_osu_string,
    spec_read_u8, DbError,
};
use crate::collection::{count_of, lemma_read_strings_len, read_strings, spec_read_strings};
use crate::text::views;

verus! {

/// The first format version that stores difficulty values as singles and
/// carries star-rating tables.
pub const FLOAT_DIFFICULTY_VERSION: i32 = 20140609;

/// A field that is read and not kept.
#[derive(Clone, Copy, Debug, PartialEq, Eq, Structural)]
pub enum FieldKind {
    Byte,
    Flag,
    Short,
    Int,
    Long,
    Single,
    Double,
    Text,
}

/// A difficulty value (AR, CS, HP, OD): a whole byte in files older than
/// `FLOAT_DIFFICULTY_VERSION`, else the bits of an IEEE-754 single.
#[derive(Clone, Copy, Debug, PartialEq, Eq, Structural)]
pub enum DifficultyStat {
    Whole(u8),
    Bits(u32),
}

/// The name of a stable ruleset number: 1 taiko, 2 fruits, 3 mania, any other
/// osu.
pub open spec fn spec_mode_name(value: u8) -> Seq<char> {
    if value == 1 {
        seq!['t', 'a', 'i', 'k', 'o']
    } else if value == 2 {
        seq!['f', 'r', 'u', 'i', 't', 's']
    } else if value == 3 {
        seq!['m', 'a', 'n', 'i', 'a']
    } else {
        seq!['o', 's', 'u']
    }
}

/// The ruleset name that `osu!.db` stores as a number.
pub fn stable_mode_name(value: u8) -> (name: String)
    ensures
        name@ == spec_mode_name(value),
{
    proof {
        reveal_strlit("taiko");
        reveal_strlit("fruits");
        reveal_strlit("mania");
        reveal_strlit("osu");
    }
    let name = match value {
        1 => "taiko",
        2 => "fruits",
        3 => "mania",
        _ => "osu",
    };
    name.to_owned()
}

/// The end of a skipped field.
pub open spec fn spec_skip_field(s: Seq<u8>, pos: int, kind: FieldKind) -> Result<int, DbError> {
    match kind {
        FieldKind::Byte => match spec_read_u8(s, pos) { Ok((_, p)) => Ok(p), Err(e) => Err(e) },
        FieldKind::Flag => match spec_read_bool(s, pos) { Ok((_, p)) => Ok(p), Err(e) => Err(e) },
        FieldKind::Short => match spec_read_i16(s, pos) { Ok((_, p)) => Ok(p), Err(e) => Err(e) },
        FieldKind::Int => match spec_read_i32(s, pos) { Ok((_, p)) => Ok(p), Err(e) => Err(e) },
        FieldKind::Long => match spec_read_i64(s, pos) { Ok((_, p)) => Ok(p), Err(e) => Err(e) },
        FieldKind::Single => match spec_read_f32_bits(s, pos) { Ok((_, p)) => Ok(p), Err(e) => Err(e) },
        FieldKind::Double => match spec_read_f64_bits(s, pos) { Ok((_, p)) => Ok(p), Err(e) => Err(e) },
        FieldKind::Text => match spec_read_osu_string(s, pos) { Ok((_, p)) => Ok(p), Err(e) => Err(e) },
    }
}

/// The end of a run of skipped fields.
pub open spec fn spec_skip_fields(s: Seq<u8>, pos: int, kinds: Seq<FieldKind>) -> Result<int, DbError>
    decreases kinds.len(),
{
    if kinds.len() == 0 {
        Ok(pos)
    } else {
        match spec_skip_field(s, pos, kinds[0]) {
            Ok(p) => spec_skip_fields(s, p, kinds.drop_first()),
            Err(e) => Err(e),
        }
    }
}

pub open spec fn skip_agrees(res: Result<(), DbError>, end: int, expected: Result<int, DbError>) -> bool {
    match expected {
        Ok(p) => res is Ok && end == p,
        Err(e) => res matches Err(e2) && e2 == e,
    }
}

fn skip_field(bytes: &[u8], pos: &mut usize, kind: FieldKind) -> (res: Result<(), DbError>)
    ensures
        skip_agrees(res, *final(pos) as int, spec_skip_field(bytes@, *old(pos) as int, kind)),
{
    match kind {
        FieldKind::Byte => {
            read_u8(bytes, pos)?;
        },
        FieldKind::Flag => {
            read_bool(bytes, pos)?;
        },
        FieldKind::Short => {
            read_i16(bytes, pos)?;
        },
        FieldKind::Int => {
            read_i32(bytes, pos)?;
        },
        FieldKind::Long => {
            read_i64(bytes, pos)?;
        },
        FieldKind::Single => {
            read_f32_bits(bytes, pos)?;
        },
        FieldKind::Double => {
            read_f64_bits(bytes, pos)?;
        },
        FieldKind::Text => {
            read_osu_string(bytes, pos)?;
        },
    }
    Ok(())
}

fn skip_fields(bytes: &[u8], pos: &mut usize, kinds: &[FieldKind]) -> (res: Result<(), DbError>)
    ensures
        skip_agrees(res, *final(pos) as int, spec_skip_fields(bytes@, *old(pos) as int, kinds@)),
{
    let ghost s = bytes@;
    let ghost start = *pos as int;
    let mut i: usize = 0;
    assert(kinds@.skip(0) == kinds@);
    while i < kinds.len()
        invariant
            i <= kinds.len(),
            s == bytes@,
            start == *old(pos) as int,
            spec_skip_fields(s, start, kinds@) == spec_skip_fields(s, *pos as int, kinds@.skip(i as int)),
        decreases kinds.len() - i,
    {
        assert(kinds@.skip(i as int)[0] == kinds@[i as int]);
        assert(kinds@.skip(i as int).drop_first() == kinds@.skip(i + 1));
        skip_field(bytes, pos, kinds[i])?;
        i = i + 1;
    }
    Ok(())
}


impl View for DifficultyStat {
    type V = DifficultyStat;

    open spec fn view(&self) -> DifficultyStat {
        *self
    }
}

/// A beatmap of `osu!.db` as values.
pub struct BeatmapModel {
    pub beatmapset_id: u64,
    pub beatmap_id: u64,
    pub artist: Seq<char>,
    pub title: Seq<char>,
    pub creator: Seq<char>,
    pub version: Seq<char>,
    pub mode: Seq<char>,
    pub md5: Seq<char>,
    pub artist_unicode: Seq<char>,
    pub title_unicode: Seq<char>,
    pub audio_file_name: Seq<char>,
    pub osu_file_name: Seq<char>,
    pub ranked_status: u8,
    pub hitcircles: i16,
    pub sliders: i16,
    pub spinners: i16,
    pub last_modification_time: i64,
    pub ar: DifficultyStat,
    pub cs: DifficultyStat,
    pub hp: DifficultyStat,
    pub od: DifficultyStat,
    pub slider_velocity: u64,
    pub drain_time: i32,
    pub total_time: i32,
    pub preview_time: i32,
    pub bpm: Option<u64>,
    pub source: Seq<char>,
    pub tags: Seq<char>,
    pub folder_name: Seq<char>,
}

/// A beatmap that `osu!.db` lists.  `slider_velocity` and `bpm` are the bits
/// of IEEE-754 doubles.
pub struct StableBeatmapInfo {
    pub beatmapset_id: u64,
    pub beatmap_id: u64,
    pub artist: String,
    pub title: String,
    pub creator: String,
    pub version: String,
    pub mode: String,
    pub md5: String,
    pub artist_unicode: String,
    pub title_unicode: String,
    pub audio_file_name: String,
    pub osu_file_name: String,
    pub ranked_status: u8,
    pub hitcircles: i16,
    pub sliders: i16,
    pub spinners: i16,
    pub last_modification_time: i64,
    pub ar: DifficultyStat,
    pub cs: DifficultyStat,
    pub hp: DifficultyStat,
    pub od: DifficultyStat,
    pub slider_velocity: u64,
    pub drain_time: i32,
    pub total_time: i32,
    pub preview_time: i32,
    pub bpm: Option<u64>,
    pub source: String,
    pub tags: String,
    pub folder_name: String,
}

impl View for StableBeatmapInfo {
    type V = BeatmapModel;

    open spec fn view(&self) -> BeatmapModel {
        BeatmapModel {
            beatmapset_id: self.beatmapset_id,
            beatmap_id: self.beatmap_id,
            artist: self.artist@,
            title: self.title@,
            creator: self.creator@,
            version: self.version@,
            mode: self.mode@,
            md5: self.md5@,
            artist_unicode: self.artist_unicode@,
            title_unicode: self.title_unicode@,
            audio_file_name: self.audio_file_name@,
            osu_file_name: self.osu_file_name@,
            ranked_status: self.ranked_status,
            hitcircles: self.hitcircles,
            sliders: self.sliders,
            spinners: self.spinners,
            last_modification_time: self.last_modification_time,
            ar: self.ar,
            cs: self.cs,
            hp: self.hp,
            od: self.od,
            slider_velocity: self.slider_velocity,
            drain_time: self.drain_time,
            total_time: self.total_time,
            preview_time: self.preview_time,
            bpm: self.bpm,
            source: self.source@,
            tags: self.tags@,
            folder_name: self.folder_name@,
        }
    }
}

/// The counts after the strings: ranked status, hit circles, sliders,
/// spinners and the modification time.
#[verifier::opaque]
pub open spec fn spec_counts(s: Seq<u8>, pos: int) -> Result<((u8, i16, i16, i16, i64), int), DbError> {
    match spec_read_u8(s, pos) {
        Err(e) => Err(e),
        Ok((ranked, p1)) => match spec_read_i16(s, p1) {
            Err(e) => Err(e),
            Ok((circles, p2)) => match spec_read_i16(s, p2) {
                Err(e) => Err(e),
                Ok((sliders, p3)) => match spec_read_i16(s, p3) {
                    Err(e) => Err(e),
                    Ok((spinners, p4)) => match spec_read_i64(s, p4) {
                        Err(e) => Err(e),
                        Ok((modified, p5)) => Ok(((ranked, circles, sliders, spinners, modified), p5)),
                    },
                },
            },
        },
    }
}

fn read_counts(bytes: &[u8], pos: &mut usize) -> (res: Result<(u8, i16, i16, i16, i64), DbError>)
    ensures
        read_agrees(res, *final(pos) as int, spec_counts(bytes@, *old(pos) as int)),
{
    reveal(spec_counts);
    let ranked = read_u8(bytes, pos)?;
    let circles = read_i16(bytes, pos)?;
    let sliders = read_i16(bytes, pos)?;
    let spinners = read_i16(bytes, pos)?;
    let modified = read_i64(bytes, pos)?;
    Ok((ranked, circles, sliders, spinners, modified))
}

/// One difficulty value: a byte before `FLOAT_DIFFICULTY_VERSION`, else a
/// single.
pub open spec fn spec_stat(s: Seq<u8>, pos: int, version: i32) -> Result<(DifficultyStat, int), DbError> {
    if version < FLOAT_DIFFICULTY_VERSION {
        match spec_read_u8(s, pos) {
            Ok((b, p)) => Ok((DifficultyStat::Whole(b), p)),
            Err(e) => Err(e),
        }
    } else {
        match spec_read_f32_bits(s, pos) {
            Ok((b, p)) => Ok((DifficultyStat::Bits(b), p)),
            Err(e) => Err(e),
        }
    }
}

fn read_stat(bytes: &[u8], pos: &mut usize, version: i32) -> (res: Result<DifficultyStat, DbError>)
    ensures
        read_agrees(res, *final(pos) as int, spec_stat(bytes@, *old(pos) as int, version)),
{
    if version < FLOAT_DIFFICULTY_VERSION {
        let b = read_u8(bytes, pos)?;
        Ok(DifficultyStat::Whole(b))
    } else {
        let b = read_f32_bits(bytes, pos)?;
        Ok(DifficultyStat::Bits(b))
    }
}

/// A star-rating table: its count, then for each entry the marker byte 8,
/// the mods as an `i32`, a type byte (12 for a single, 13 for a double) and
/// the value.
pub open spec fn spec_star_entries(s: Seq<u8>, pos: int, n: nat) -> Result<int, DbError>
    decreases n,
{
    if n == 0 {
        Ok(pos)
    } else {
        match spec_read_u8(s, pos) {
            Err(e) => Err(e),
            Ok((marker, p1)) => if marker != 8 {
                Err(DbError::UnknownStarRatingMarker)
            } else {
                match spec_read_i32(s, p1) {
                    Err(e) => Err(e),
                    Ok((_, p2)) => match spec_read_u8(s, p2) {
                        Err(e) => Err(e),
                        Ok((tag, p3)) => if tag == 12 {
                            match spec_read_f32_bits(s, p3) {
                                Err(e) => Err(e),
                                Ok((_, p4)) => spec_star_entries(s, p4, (n - 1) as nat),
                            }
                        } else if tag == 13 {
                            match spec_read_f64_bits(s, p3) {
                                Err(e) => Err(e),
                                Ok((_, p4)) => spec_star_entries(s, p4, (n - 1) as nat),
                            }
                        } else {
                            Err(DbError::UnknownStarRatingValue)
                        },
                    },
                }
            },
        }
    }
}

pub open spec fn spec_star_table(s: Seq<u8>, pos: int) -> Result<int, DbError> {
    match spec_read_i32(s, pos) {
        Err(e) => Err(e),
        Ok((c, p)) => spec_star_entries(s, p, count_of(c)),
    }
}

/// Skips one star-rating table of `osu!.db`.
pub fn skip_star_rating_pairs(bytes: &[u8], pos: &mut usize) -> (res: Result<(), DbError>)
    ensures
        skip_agrees(res, *final(pos) as int, spec_star_table(bytes@, *old(pos) as int)),
{
    let ghost s = bytes@;
    let c = read_i32(bytes, pos)?;
    let count: usize = if c < 0 { 0 } else { c as usize };
    let ghost p0 = *pos as int;
    let mut i: usize = 0;
    while i < count
        invariant
            i <= count,
            s == bytes@,
            count == count_of(c),
            spec_star_table(s, *old(pos) as int) == spec_star_entries(s, *pos as int, (count - i) as nat),
        decreases count - i,
    {
        let marker = read_u8(bytes, pos)?;
        if marker != 8 {
            return Err(DbError::UnknownStarRatingMarker);
        }
        read_i32(bytes, pos)?;
        let tag = read_u8(bytes, pos)?;
        if tag == 12 {
            read_f32_bits(bytes, pos)?;
        } else if tag == 13 {
            read_f64_bits(bytes, pos)?;
        } else {
            return Err(DbError::UnknownStarRatingValue);
        }
        i = i + 1;
    }
    Ok(())
}

/// The difficulty values, the slider velocity and, from
/// `FLOAT_DIFFICULTY_VERSION` on, four star-rating tables.
#[verifier::opaque]
pub open spec fn spec_stats(s: Seq<u8>, pos: int, version: i32) -> Result<
    ((DifficultyStat, DifficultyStat, DifficultyStat, DifficultyStat, u64), int),
    DbError,
> {
    match spec_stat(s, pos, version) {
        Err(e) => Err(e),
        Ok((ar, p1)) => match spec_stat(s, p1, version) {
            Err(e) => Err(e),
            Ok((cs, p2)) => match spec_stat(s, p2, version) {
                Err(e) => Err(e),
                Ok((hp, p3)) => match spec_stat(s, p3, version) {
                    Err(e) => Err(e),
                    Ok((od, p4)) => match spec_read_f64_bits(s, p4) {
                        Err(e) => Err(e),
                        Ok((sv, p5)) => if version < FLOAT_DIFFICULTY_VERSION {
                            Ok(((ar, cs, hp, od, sv), p5))
                        } else {
                            match spec_star_tables(s, p5, 4) {
                                Err(e) => Err(e),
                                Ok(p6) => Ok(((ar, cs, hp, od, sv), p6)),
                            }
                        },
                    },
                },
            },
        },
    }
}

pub open spec fn spec_star_tables(s: Seq<u8>, pos: int, n: nat) -> Result<int, DbError>
    decreases n,
{
    if n == 0 {
        Ok(pos)
    } else {
        match spec_star_table(s, pos) {
            Err(e) => Err(e),
            Ok(p) => spec_star_tables(s, p, (n - 1) as nat),
        }
    }
}

fn read_stats(bytes: &[u8], pos: &mut usize, version: i32) -> (res: Result<
    (DifficultyStat, DifficultyStat, DifficultyStat, DifficultyStat, u64),
    DbError,
>)
    ensures
        read_agrees(res, *final(pos) as int, spec_stats(bytes@, *old(pos) as int, version)),
{
    reveal(spec_stats);
    let ar = read_stat(bytes, pos, version)?;
    let cs = read_stat(bytes, pos, version)?;
    let hp = read_stat(bytes, pos, version)?;
    let od = read_stat(bytes, pos, version)?;
    let sv = read_f64_bits(bytes, pos)?;
    if version >= FLOAT_DIFFICULTY_VERSION {
        let ghost p5 = *pos as int;
        let ghost s = bytes@;
        let ghost whole = spec_stats(s, *old(pos) as int, version);
        assert(whole == match spec_star_tables(s, p5, 4) {
            Err(e) => Err(e),
            Ok(p6) => Ok(((ar, cs, hp, od, sv), p6)),
        });
        let mut k: usize = 0;
        while k < 4
            invariant
                k <= 4,
                s == bytes@,
                whole == spec_stats(s, *old(pos) as int, version),
                whole == match spec_star_tables(s, p5, 4) {
                    Err(e) => Err(e),
                    Ok(p6) => Ok(((ar, cs, hp, od, sv), p6)),
                },
                spec_star_tables(s, p5, 4) == spec_star_tables(s, *pos as int, (4 - k) as nat),
            decreases 4 - k,
        {
            skip_star_rating_pairs(bytes, pos)?;
            k = k + 1;
        }
    }
    Ok((ar, cs, hp, od, sv))
}


/// The bits of a double that compares greater than `0.0`: positive sign, not
/// zero, not NaN (infinity included).
pub open spec fn positive_double(bits: u64) -> bool {
    0 < bits && bits <= 0x7FF0_0000_0000_0000
}

/// The timing points: for each, the beat length field, the offset and the
/// inherited flag.  `found` is the first value of an uninherited point that
/// compares greater than zero.
pub open spec fn spec_timing_points(s: Seq<u8>, pos: int, n: nat, found: Option<u64>) -> Result<(Option<u64>, int), DbError>
    decreases n,
{
    if n == 0 {
        Ok((found, pos))
    } else {
        match spec_read_f64_bits(s, pos) {
            Err(e) => Err(e),
            Ok((bpm, p1)) => match spec_read_f64_bits(s, p1) {
                Err(e) => Err(e),
                Ok((_, p2)) => match spec_read_bool(s, p2) {
                    Err(e) => Err(e),
                    Ok((inherited, p3)) => spec_timing_points(
                        s,
                        p3,
                        (n - 1) as nat,
                        if !inherited && positive_double(bpm) && found is None { Some(bpm) } else { found },
                    ),
                },
            },
        }
    }
}

/// The drain, total and preview times, then the timing points.
#[verifier::opaque]
pub open spec fn spec_times(s: Seq<u8>, pos: int) -> Result<((i32, i32, i32, Option<u64>), int), DbError> {
    match spec_read_i32(s, pos) {
        Err(e) => Err(e),
        Ok((drain, p1)) => match spec_read_i32(s, p1) {
            Err(e) => Err(e),
            Ok((total, p2)) => match spec_read_i32(s, p2) {
                Err(e) => Err(e),
                Ok((preview, p3)) => match spec_read_i32(s, p3) {
                    Err(e) => Err(e),
                    Ok((c, p4)) => match spec_timing_points(s, p4, count_of(c), None) {
                        Err(e) => Err(e),
                        Ok((bpm, p5)) => Ok(((drain, total, preview, bpm), p5)),
                    },
                },
            },
        },
    }
}

fn read_times(bytes: &[u8], pos: &mut usize) -> (res: Result<(i32, i32, i32, Option<u64>), DbError>)
    ensures
        read_agrees(res, *final(pos) as int, spec_times(bytes@, *old(pos) as int)),
{
    reveal(spec_times);
    let ghost s = bytes@;
    let drain = read_i32(bytes, pos)?;
    let total = read_i32(bytes, pos)?;
    let preview = read_i32(bytes, pos)?;
    let c = read_i32(bytes, pos)?;
    let count: usize = if c < 0 { 0 } else { c as usize };
    let ghost whole = spec_times(s, *old(pos) as int);
    let ghost p4 = *pos as int;
    let mut bpm: Option<u64> = None;
    let mut i: usize = 0;
    while i < count
        invariant
            i <= count,
            s == bytes@,
            count == count_of(c),
            whole == spec_times(s, *old(pos) as int),
            whole == match spec_timing_points(s, *pos as int, (count - i) as nat, bpm) {
                Err(e) => Err(e),
                Ok((b, p5)) => Ok(((drain, total, preview, b), p5)),
            },
        decreases count - i,
    {
        let point = read_f64_bits(bytes, pos)?;
        read_f64_bits(bytes, pos)?;
        let inherited = read_bool(bytes, pos)?;
        if !inherited && 0 < point && point <= 0x7FF0_0000_0000_0000 && bpm.is_none() {
            bpm = Some(point);
        }
        i = i + 1;
    }
    Ok((drain, total, preview, bpm))
}

/// The fields that follow the ids up to the ruleset byte: thread id, four
/// grades, local offset and stack leniency.
pub open spec fn fields_after_ids() -> Seq<FieldKind> {
    seq![
        FieldKind::Int,
        FieldKind::Byte,
        FieldKind::Byte,
        FieldKind::Byte,
        FieldKind::Byte,
        FieldKind::Short,
        FieldKind::Single,
    ]
}

/// An id stored as an `i32`; a negative id is taken as zero.
pub open spec fn id_of(v: i32) -> u64 {
    if v < 0 {
        0
    } else {
        v as u64
    }
}

/// Beatmap id, beatmapset id, the skipped fields, then the ruleset byte.
#[verifier::opaque]
pub open spec fn spec_ids(s: Seq<u8>, pos: int) -> Result<((u64, u64, u8), int), DbError> {
    match spec_read_i32(s, pos) {
        Err(e) => Err(e),
        Ok((beatmap, p1)) => match spec_read_i32(s, p1) {
            Err(e) => Err(e),
            Ok((set, p2)) => match spec_skip_fields(s, p2, fields_after_ids()) {
                Err(e) => Err(e),
                Ok(p3) => match spec_read_u8(s, p3) {
                    Err(e) => Err(e),
                    Ok((mode, p4)) => Ok(((id_of(beatmap), id_of(set), mode), p4)),
                },
            },
        },
    }
}

fn id_from(v: i32) -> (r: u64)
    ensures
        r == id_of(v),
{
    if v < 0 {
        0
    } else {
        v as u64
    }
}

fn read_ids(bytes: &[u8], pos: &mut usize) -> (res: Result<(u64, u64, u8), DbError>)
    ensures
        read_agrees(res, *final(pos) as int, spec_ids(bytes@, *old(pos) as int)),
{
    reveal(spec_ids);
    let beatmap = read_i32(bytes, pos)?;
    let set = read_i32(bytes, pos)?;
    let kinds = [
        FieldKind::Int,
        FieldKind::Byte,
        FieldKind::Byte,
        FieldKind::Byte,
        FieldKind::Byte,
        FieldKind::Short,
        FieldKind::Single,
    ];
    assert(kinds@ == fields_after_ids());
    skip_fields(bytes, pos, &kinds)?;
    let mode = read_u8(bytes, pos)?;
    Ok((id_from(beatmap), id_from(set), mode))
}

/// Online offset, title font, unplayed, last played and osz2 flags, between
/// the tags and the folder name.
pub open spec fn fields_before_folder() -> Seq<FieldKind> {
    seq![FieldKind::Short, FieldKind::Text, FieldKind::Flag, FieldKind::Long, FieldKind::Flag]
}

/// Last check, five flags, last edit and mania scroll speed, after the folder
/// name.
pub open spec fn fields_after_folder() -> Seq<FieldKind> {
    seq![
        FieldKind::Long,
        FieldKind::Flag,
        FieldKind::Flag,
        FieldKind::Flag,
        FieldKind::Flag,
        FieldKind::Flag,
        FieldKind::Int,
        FieldKind::Byte,
    ]
}

/// Source, tags, the skipped fields, the folder name and the last fields.
#[verifier::opaque]
pub open spec fn spec_tail(s: Seq<u8>, pos: int) -> Result<((Seq<char>, Seq<char>, Seq<char>), int), DbError> {
    match spec_read_osu_string(s, pos) {
        Err(e) => Err(e),
        Ok((source, p1)) => match spec_read_osu_string(s, p1) {
            Err(e) => Err(e),
            Ok((tags, p2)) => match spec_skip_fields(s, p2, fields_before_folder()) {
                Err(e) => Err(e),
                Ok(p3) => match spec_read_osu_string(s, p3) {
                    Err(e) => Err(e),
                    Ok((folder, p4)) => match spec_skip_fields(s, p4, fields_after_folder()) {
                        Err(e) => Err(e),
                        Ok(p5) => Ok(((source, tags, folder), p5)),
                    },
                },
            },
        },
    }
}

fn read_tail(bytes: &[u8], pos: &mut usize) -> (res: Result<(String, String, String), DbError>)
    ensures
        read_agrees(res, *final(pos) as int, spec_tail(bytes@, *old(pos) as int)),
{
    reveal(spec_tail);
    let source = read_osu_string(bytes, pos)?;
    let tags = read_osu_string(bytes, pos)?;
    let before = [FieldKind::Short, FieldKind::Text, FieldKind::Flag, FieldKind::Long, FieldKind::Flag];
    assert(before@ == fields_before_folder());
    skip_fields(bytes, pos, &before)?;
    let folder = read_osu_string(bytes, pos)?;
    let after = [
        FieldKind::Long,
        FieldKind::Flag,
        FieldKind::Flag,
        FieldKind::Flag,
        FieldKind::Flag,
        FieldKind::Flag,
        FieldKind::Int,
        FieldKind::Byte,
    ];
    assert(after@ == fields_after_folder());
    skip_fields(bytes, pos, &after)?;
    Ok((source, tags, folder))
}


/// A beatmap entry: nine strings (artist, artist in Unicode, title, title in
/// Unicode, creator, difficulty name, audio file, MD5, `.osu` file), the
/// counts, the difficulty values, the times and timing points, the ids and
/// ruleset, and the last fields.
#[verifier::opaque]
pub open spec fn spec_beatmap(s: Seq<u8>, pos: int, version: i32) -> Result<(BeatmapModel, int), DbError> {
    match spec_read_strings(s, pos, 9) {
        Err(e) => Err(e),
        Ok((t, p1)) => match spec_counts(s, p1) {
            Err(e) => Err(e),
            Ok(((ranked, circles, sliders, spinners, modified), p2)) => match spec_stats(s, p2, version) {
                Err(e) => Err(e),
                Ok(((ar, cs, hp, od, sv), p3)) => match spec_times(s, p3) {
                    Err(e) => Err(e),
                    Ok(((drain, total, preview, bpm), p4)) => match spec_ids(s, p4) {
                        Err(e) => Err(e),
                        Ok(((beatmap_id, beatmapset_id, mode), p5)) => match spec_tail(s, p5) {
                            Err(e) => Err(e),
                            Ok(((source, tags, folder), p6)) => Ok((
                                BeatmapModel {
                                    beatmapset_id,
                                    beatmap_id,
                                    artist: t[0],
                                    title: t[2],
                                    creator: t[4],
                                    version: t[5],
                                    mode: spec_mode_name(mode),
                                    md5: t[7],
                                    artist_unicode: t[1],
                                    title_unicode: t[3],
                                    audio_file_name: t[6],
                                    osu_file_name: t[8],
                                    ranked_status: ranked,
                                    hitcircles: circles,
                                    sliders,
                                    spinners,
                                    last_modification_time: modified,
                                    ar,
                                    cs,
                                    hp,
                                    od,
                                    slider_velocity: sv,
                                    drain_time: drain,
                                    total_time: total,
                                    preview_time: preview,
                                    bpm,
                                    source,
                                    tags,
                                    folder_name: folder,
                                },
                                p6,
                            )),
                        },
                    },
                },
            },
        },
    }
}

fn read_beatmap(bytes: &[u8], pos: &mut usize, version: i32) -> (res: Result<StableBeatmapInfo, DbError>)
    ensures
        read_agrees(res, *final(pos) as int, spec_beatmap(bytes@, *old(pos) as int, version)),
{
    reveal(spec_beatmap);
    proof {
        lemma_read_strings_len(bytes@, *pos as int, 9);
    }
    let texts = read_strings(bytes, pos, 9)?;
    let (ranked, circles, sliders, spinners, modified) = read_counts(bytes, pos)?;
    let (ar, cs, hp, od, sv) = read_stats(bytes, pos, version)?;
    let (drain, total, preview, bpm) = read_times(bytes, pos)?;
    let (beatmap_id, beatmapset_id, mode) = read_ids(bytes, pos)?;
    let (source, tags, folder) = read_tail(bytes, pos)?;
    assert(texts@.len() == 9);
    assert(forall|k: int| 0 <= k < 9 ==> views(texts@)[k] == (#[trigger] texts@[k])@);
    Ok(StableBeatmapInfo {
        beatmapset_id,
        beatmap_id,
        artist: texts[0].clone(),
        title: texts[2].clone(),
        creator: texts[4].clone(),
        version: texts[5].clone(),
        mode: stable_mode_name(mode),
        md5: texts[7].clone(),
        artist_unicode: texts[1].clone(),
        title_unicode: texts[3].clone(),
        audio_file_name: texts[6].clone(),
        osu_file_name: texts[8].clone(),
        ranked_status: ranked,
        hitcircles: circles,
        sliders,
        spinners,
        last_modification_time: modified,
        ar,
        cs,
        hp,
        od,
        slider_velocity: sv,
        drain_time: drain,
        total_time: total,
        preview_time: preview,
        bpm,
        source,
        tags,
        folder_name: folder,
    })
}

pub open spec fn spec_beatmaps(s: Seq<u8>, pos: int, n: nat, version: i32) -> Result<(Seq<BeatmapModel>, int), DbError>
    decreases n,
{
    if n == 0 {
        Ok((Seq::empty(), pos))
    } else {
        match spec_beatmap(s, pos, version) {
            Err(e) => Err(e),
            Ok((b, p)) => match spec_beatmaps(s, p, (n - 1) as nat, version) {
                Err(e) => Err(e),
                Ok((rest, q)) => Ok((seq![b] + rest, q)),
            },
        }
    }
}

/// The file: version, folder count, account flag, unlock date, player name,
/// the count of beatmaps and the beatmaps.  Bytes after the last beatmap are
/// ignored.
pub open spec fn spec_osu_db(s: Seq<u8>) -> Result<Seq<BeatmapModel>, DbError> {
    match spec_read_i32(s, 0) {
        Err(e) => Err(e),
        Ok((version, p1)) => match spec_skip_fields(s, p1, seq![FieldKind::Int, FieldKind::Flag, FieldKind::Long, FieldKind::Text]) {
            Err(e) => Err(e),
            Ok(p2) => match spec_read_i32(s, p2) {
                Err(e) => Err(e),
                Ok((c, p3)) => match spec_beatmaps(s, p3, count_of(c), version) {
                    Err(e) => Err(e),
                    Ok((beatmaps, _)) => Ok(beatmaps),
                },
            },
        },
    }
}

pub open spec fn beatmap_views(v: Seq<StableBeatmapInfo>) -> Seq<BeatmapModel> {
    v.map_values(|b: StableBeatmapInfo| b@)
}

/// Parses the bytes of `osu!.db` into the beatmaps it lists.
pub fn read_stable_osu_db(bytes: &[u8]) -> (res: Result<Vec<StableBeatmapInfo>, DbError>)
    ensures
        match spec_osu_db(bytes@) {
            Ok(m) => res matches Ok(v) && beatmap_views(v@) == m,
            Err(e) => res matches Err(e2) && e2 == e,
        },
{
    let ghost s = bytes@;
    let mut pos: usize = 0;
    let version = read_i32(bytes, &mut pos)?;
    let header = [FieldKind::Int, FieldKind::Flag, FieldKind::Long, FieldKind::Text];
    assert(header@ == seq![FieldKind::Int, FieldKind::Flag, FieldKind::Long, FieldKind::Text]);
    skip_fields(bytes, &mut pos, &header)?;
    let c = read_i32(bytes, &mut pos)?;
    let count: usize = if c < 0 { 0 } else { c as usize };
    let ghost p3 = pos as int;
    let ghost whole = spec_osu_db(s);
    assert(whole == match spec_beatmaps(s, p3, count as nat, version) {
        Err(e) => Err(e),
        Ok((beatmaps, _)) => Ok::<Seq<BeatmapModel>, DbError>(beatmaps),
    });
    let mut beatmaps: Vec<StableBeatmapInfo> = Vec::new();
    let mut i: usize = 0;
    while i < count
        invariant
            i <= count,
            s == bytes@,
            whole == spec_osu_db(s),
            whole == match spec_beatmaps(s, p3, count as nat, version) {
                Err(e) => Err(e),
                Ok((beatmaps, _)) => Ok::<Seq<BeatmapModel>, DbError>(beatmaps),
            },
            spec_beatmaps(s, p3, count as nat, version) == match spec_beatmaps(s, pos as int, (count - i) as nat, version) {
                Ok((rest, q)) => Ok((beatmap_views(beatmaps@) + rest, q)),
                Err(e) => Err::<(Seq<BeatmapModel>, int), DbError>(e),
            },
        decreases count - i,
    {
        let b = match read_beatmap(bytes, &mut pos, version) {
            Ok(b) => b,
            Err(e) => {
                return Err(e);
            },
        };
        proof {
            let ghost old_views = beatmap_views(beatmaps@);
            match spec_beatmaps(s, pos as int, (count - i - 1) as nat, version) {
                Ok((rest, q)) => {
                    assert(old_views + (seq![b@] + rest) =~= old_views.push(b@) + rest);
                },
                Err(e) => {},
            }
        }
        let ghost before = beatmaps@;
        beatmaps.push(b);
        assert(beatmap_views(beatmaps@) =~= beatmap_views(before).push(b@));
        i = i + 1;
    }
    assert(beatmap_views(beatmaps@) + Seq::<BeatmapModel>::empty() =~= beatmap_views(beatmaps@));
    Ok(beatmaps)
}

}
