//! Exact conversion between the Hebrew and the Gregorian calendar through a
//! shared fixed day number, with the calendar rules stated as specifications
//! and the conversions proved against them.

pub mod error;
pub mod event;
pub mod flags;
pub mod gregorian;
pub mod hdate;
pub mod hebrew;
pub mod hebrew_date;
pub mod hebrew_date_event;
pub mod holyday_event;
pub mod molad;
pub mod molad_event;
pub mod month;
pub mod text;

pub use error::HebrewDateErrors;
pub use event::Event;
pub use flags::Flags;
pub use gregorian::GregorianDate;
pub use hdate::Hdate;
pub use hebrew::ElapsedDaysCache;
pub use hebrew_date::HebrewDate;
pub use hebrew_date_event::HebrewDateEvent;
pub use holyday_event::{Emoji, HolidayEvent};
pub use molad::Molad;
pub use molad_event::MoladEvent;
pub use month::HebrewMonth;
