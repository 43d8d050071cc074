//! The kinds of an event, as a set of bits.

use vstd::prelude::*;

verus! {

/// Chag, yontiff, yom tov
pub const CHAG: u32 = 0x000001;

/// Light candles 18 minutes before sundown
pub const LIGHT_CANDLES: u32 = 0x000002;

/// End of holiday (end of Yom Tov)
pub const YOM_TOV_ENDS: u32 = 0x000004;

/// Observed only in the Diaspora
pub const CHUL_ONLY: u32 = 0x000008;

/// Observed only in Israel
pub const ISRAEL_ONLY: u32 = 0x000010;

/// Light candles in the evening at Tzeit time (3 small stars)
pub const LIGHT_CANDLES_TZEIS: u32 = 0x000020;

/// Candle-lighting for Chanukah
pub const CHANUKAH_CANDLES: u32 = 0x000040;

/// Rosh Chodesh; beginning of a new Hebrew month
pub const ROSH_CHODESH: u32 = 0x000080;

/// Minor fasts like Tzom Tammuz; Ta'anit Esther, ...
pub const MINOR_FAST: u32 = 0x000100;

/// Shabbat Shekalim, Zachor, ...
pub const SPECIAL_SHABBAT: u32 = 0x000200;

/// Weekly sedrot on Saturdays
pub const PARSHA_HASHAVUA: u32 = 0x000400;

/// Daily page of Talmud (Bavli)
pub const DAF_YOMI: u32 = 0x000800;

/// Days of the Omer
pub const OMER_COUNT: u32 = 0x001000;

/// Yom HaShoah, Yom HaAtzma'ut, ...
pub const MODERN_HOLIDAY: u32 = 0x002000;

/// Yom Kippur and Tish'a B'Av
pub const MAJOR_FAST: u32 = 0x004000;

/// On the Saturday before Rosh Chodesh
pub const SHABBAT_MEVARCHIM: u32 = 0x008000;

/// Molad
pub const MOLAD: u32 = 0x010000;

/// Yahrzeit or Hebrew Anniversary
pub const USER_EVENT: u32 = 0x020000;

/// Daily Hebrew date ("11th of Sivan, 5780")
pub const HEBREW_DATE: u32 = 0x040000;

/// A holiday that's not major, modern, rosh chodesh, or a fast day
pub const MINOR_HOLIDAY: u32 = 0x080000;

/// Evening before a major or minor holiday
pub const EREV: u32 = 0x100000;

/// Chol haMoed, intermediate days of Pesach or Sukkot
pub const CHOL_HAMOED: u32 = 0x200000;

/// Mishna Yomi
pub const MISHNA_YOMI: u32 = 0x400000;

/// Yom Kippur Katan, minor day of atonement on the day before each Rosh Chodesh
pub const YOM_KIPPUR_KATAN: u32 = 0x800000;

/// Daily page of Jerusalem Talmud (Yerushalmi)
pub const YERUSHALMI_YOMI: u32 = 0x1000000;

/// Nach Yomi
pub const NACH_YOMI: u32 = 0x2000000;

/// Daily Learning
pub const DAILY_LEARNING: u32 = 0x4000000;

/// A set of event kinds, one bit for each.
#[derive(Clone, Copy, Debug, PartialEq, Eq, Structural)]
pub struct Flags(u32);

impl Flags {
    /// The bits of the set.
    pub closed spec fn view(&self) -> u32 {
        self.0
    }

    /// The set of no kind.
    pub fn empty() -> (flags: Self)
        ensures
            flags@ == 0,
    {
        Flags(0)
    }

    /// The set with exactly the given bits.
    pub fn from_bits_retain(bits: u32) -> (flags: Self)
        ensures
            flags@ == bits,
    {
        Flags(bits)
    }

    /// The bits of the set.
    pub fn bits(&self) -> (bits: u32)
        ensures
            bits == self@,
    {
        self.0
    }

    /// Whether the set holds no kind.
    pub fn is_empty(&self) -> (none: bool)
        ensures
            none == (self@ == 0),
    {
        self.0 == 0
    }

    /// The kinds of either set.
    pub fn union(self, other: Flags) -> (both: Self)
        ensures
            both@ == self@ | other@,
    {
        Flags(self.0 | other.0)
    }

    /// Whether the two sets share a kind.
    pub fn intersects(&self, other: Flags) -> (shared: bool)
        ensures
            shared == (self@ & other@ != 0),
    {
        self.0 & other.0 != 0
    }

    /// Whether the set holds every kind of `other`.
    pub fn contains(&self, other: Flags) -> (all: bool)
        ensures
            all == (self@ & other@ == other@),
    {
        self.0 & other.0 == other.0
    }
}

} // verus!
