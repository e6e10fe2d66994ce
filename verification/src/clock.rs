//! The clock: the current time of day in a given layout, and the time that
//! has passed since a span was created. Of a timestamp it is known that it
//! is some instant written in the layout; of the time passed, nothing but
//! that it was read.
use crate::extension::SpanExtension;
use vstd::prelude::*;
use vstd::utf8::encode_utf8;

verus! {

/// `std::time::Instant`: a reading of the monotonic clock.
#[verifier::external_type_specification]
#[verifier::external_body]
pub struct ExInstant(std::time::Instant);

/// Why a record could not be rendered.
#[derive(Clone, Copy, Debug, PartialEq, Eq, Structural)]
pub enum RenderError {
    /// The current time could not be written in the layout for timestamps:
    /// the layout is not flat, is no valid format description, or names
    /// what a time of day does not have.
    InvalidTimeFormat,
}

/// Walks the bytes of a layout from `at` on. Outside a component two
/// opening brackets in a row stand for a bracket in the text, and one
/// opens a component; inside a component the next closing bracket ends
/// it. The walk fails where a bracket opens inside a component.
pub open spec fn brackets_flat(bytes: Seq<u8>, at: int, inside: bool) -> bool
    decreases bytes.len() - at,
{
    if at < 0 || at >= bytes.len() {
        true
    } else if inside {
        if bytes[at] == 0x5b {
            false
        } else {
            brackets_flat(bytes, at + 1, bytes[at] != 0x5d)
        }
    } else if bytes[at] == 0x5b {
        if at + 1 < bytes.len() && bytes[at + 1] == 0x5b {
            brackets_flat(bytes, at + 2, false)
        } else {
            brackets_flat(bytes, at + 1, true)
        }
    } else {
        brackets_flat(bytes, at + 1, false)
    }
}

/// The layout is flat: no component of it holds a description of its
/// own, and its length fits 32 bits. Only flat layouts are handed to the
/// parser of the `time` crate.
pub open spec fn flat(layout: Seq<char>) -> bool {
    encode_utf8(layout).len() <= u32::MAX && brackets_flat(encode_utf8(layout), 0, false)
}

/// Whether `layout` is a format description in the first version of the
/// syntax of the `time` crate: whether its parser takes the text.
pub uninterp spec fn layout_parses(layout: Seq<char>) -> bool;

/// The instant `nanos` nanoseconds after the Unix epoch, in UTC, as the
/// `time` crate writes it in `layout`; nothing where the layout is no
/// format description or the instant cannot be written in it.
pub uninterp spec fn written_at(nanos: int, layout: Seq<char>) -> Option<Seq<char>>;

/// The layout can be used for timestamps: it is flat, and a format
/// description.
pub open spec fn usable(layout: Seq<char>) -> bool {
    flat(layout) && layout_parses(layout)
}

/// What the instant `nanos` gives as a timestamp in `layout`.
pub open spec fn stamp_at(nanos: int, layout: Seq<char>) -> Option<Seq<char>> {
    if flat(layout) {
        written_at(nanos, layout)
    } else {
        None
    }
}

/// `r` is what comes of `written`: the text, or the error.
pub open spec fn stamps(r: Result<String, RenderError>, written: Option<Seq<char>>) -> bool {
    match written {
        Some(text) => r matches Ok(stamp) && stamp@ == text,
        None => r is Err,
    }
}

/// `text` is some instant written in `layout`.
pub open spec fn is_timestamp(text: Seq<char>, layout: Seq<char>) -> bool {
    exists|nanos: int| stamp_at(nanos, layout) == Some(text)
}

/// Some instant cannot be written in `layout`.
pub open spec fn fails_to_stamp(layout: Seq<char>) -> bool {
    exists|nanos: int| stamp_at(nanos, layout) is None
}

/// Tells whether a layout is flat.
pub fn is_flat(layout: &str) -> (r: bool)
    ensures
        r == flat(layout@),
{
    let bytes = layout.as_bytes();
    if bytes.len() > 0xffff_ffff {
        return false;
    }
    let mut at: usize = 0;
    let mut inside = false;
    while at < bytes.len()
        invariant
            at <= bytes.len(),
            bytes@ == encode_utf8(layout@),
            bytes.len() <= u32::MAX,
            brackets_flat(bytes@, 0, false) == brackets_flat(bytes@, at as int, inside),
        decreases bytes.len() - at,
    {
        let byte: u8 = bytes[at];
        if inside {
            if byte == 0x5b {
                return false;
            }
            inside = byte != 0x5d;
            at = at + 1;
        } else if byte == 0x5b {
            if at + 1 < bytes.len() && bytes[at + 1] == 0x5b {
                at = at + 2;
            } else {
                inside = true;
                at = at + 1;
            }
        } else {
            at = at + 1;
        }
    }
    true
}

/// `time::OffsetDateTime::now_utc`, read through
/// `OffsetDateTime::unix_timestamp_nanos`: the current instant, in
/// nanoseconds since the Unix epoch.
#[verifier::external_body]
fn now_nanos() -> (r: i128) {
    time::OffsetDateTime::now_utc().unix_timestamp_nanos()
}

/// `time::OffsetDateTime::format`, on the instant that
/// `OffsetDateTime::from_unix_timestamp_nanos` makes of `nanos` and the
/// description that `format_description::parse_owned` (first version of
/// the syntax) makes of `layout`: the instant written in the layout, or
/// nothing where one of the three refuses. The three read nothing but
/// their arguments. The parser is kept from layouts that are not flat: on
/// some of them it fails an assertion of its own.
#[verifier::external_body]
fn write_instant(nanos: i128, layout: &str) -> (r: Option<String>)
    requires
        flat(layout@),
    ensures
        !layout_parses(layout@) ==> r is None,
        match r {
            Some(text) => written_at(nanos as int, layout@) == Some(text@),
            None => written_at(nanos as int, layout@) is None,
        },
{
    let description = time::format_description::parse_owned::<1>(layout).ok()?;
    let at = time::OffsetDateTime::from_unix_timestamp_nanos(nanos).ok()?;
    at.format(&description).ok()
}

/// `std::time::Instant::now`: a reading of the monotonic clock.
#[verifier::external_body]
pub(crate) fn instant_now() -> (r: std::time::Instant) {
    std::time::Instant::now()
}

/// `std::time::Instant::elapsed`: the time that has passed since the
/// reading was taken.
#[verifier::external_body]
fn elapsed_since(start: &std::time::Instant) -> (r: std::time::Duration) {
    start.elapsed()
}

/// `std::time::Duration::as_micros`: the whole microseconds in a duration.
#[verifier::external_body]
fn whole_micros(duration: &std::time::Duration) -> (r: u128) {
    duration.as_micros()
}

/// The timestamp that comes of writing an instant: the text where the
/// instant could be written, else the error.
pub fn timestamp_of(written: Option<String>) -> (r: Result<String, RenderError>)
    ensures
        match written {
            Some(text) => r == Ok::<String, RenderError>(text),
            None => r == Err::<String, RenderError>(RenderError::InvalidTimeFormat),
        },
{
    match written {
        Some(text) => Ok(text),
        None => Err(RenderError::InvalidTimeFormat),
    }
}

/// The current time of day in UTC, written in `layout`: what some instant
/// gives in that layout. A layout that is not flat, or no format
/// description, is an error.
pub fn timestamp(layout: &str) -> (r: Result<String, RenderError>)
    ensures
        exists|nanos: int| stamps(r, #[trigger] stamp_at(nanos, layout@)),
        !usable(layout@) ==> r == Err::<String, RenderError>(RenderError::InvalidTimeFormat),
{
    if !is_flat(layout) {
        assert(stamps(Err(RenderError::InvalidTimeFormat), stamp_at(0, layout@)));
        return Err(RenderError::InvalidTimeFormat);
    }
    let now = now_nanos();
    let r = timestamp_of(write_instant(now, layout));
    assert(stamps(r, stamp_at(now as int, layout@)));
    r
}

/// The microseconds that have passed since `start`.
pub fn elapsed_micros(start: &std::time::Instant) -> (r: u128) {
    let passed = elapsed_since(start);
    whole_micros(&passed)
}

/// A span extension that records when the span was created.
#[derive(Debug)]
pub struct SpanExtTiming {
    /// The reading of the clock at creation.
    pub entered: std::time::Instant,
}

impl SpanExtension for SpanExtTiming {

}

impl Default for SpanExtTiming {
    fn default() -> (r: Self) {
        SpanExtTiming { entered: instant_now() }
    }
}

} // verus!
