//! The format policy: what a rendered record shows and how, and the layer
//! that carries it.
use vstd::prelude::*;

verus! {

/// The layout that timestamps have unless another is set: the time of day
/// with six digits of the second's fraction.
pub open spec fn default_time_format() -> Seq<char> {
    "[hour]:[minute]:[second].[subsecond digits:6]"@
}

/// Formatting options, for spans and events alike.
#[derive(Debug)]
pub struct PrettyFormatOptions {
    /// Buffer every span tree and print it when its root closes, instead
    /// of printing each line as it occurs.
    pub wrapped: bool,
    /// Write all fields of a record on one line.
    pub oneline: bool,
    /// The layout of timestamps: a format description of the `time` crate
    /// in which no component holds a description of its own.
    pub time_format: String,
    /// Print events only, no span entry or exit lines.
    pub events_only: bool,
    /// Show a timestamp.
    pub show_time: bool,
    /// Show the target.
    pub show_target: bool,
    /// Show the file and line.
    pub show_file_info: bool,
    /// Show the span's id and name.
    pub show_span_info: bool,
    /// The width of one level of indentation, in spaces.
    pub indent: usize,
}

impl Default for PrettyFormatOptions {
    fn default() -> (r: Self)
        ensures
            !r.wrapped,
            !r.oneline,
            r.time_format@ == default_time_format(),
            !r.events_only,
            r.show_time,
            r.show_target,
            r.show_file_info,
            r.show_span_info,
            r.indent == 6,
    {
        PrettyFormatOptions {
            wrapped: false,
            oneline: false,
            time_format: "[hour]:[minute]:[second].[subsecond digits:6]".to_owned(),
            events_only: false,
            show_time: true,
            show_target: true,
            show_file_info: true,
            show_span_info: true,
            indent: 6,
        }
    }
}

/// A tracing layer that pretty-prints spans and events to the console.
#[derive(Debug)]
pub struct PrettyConsoleLayer {
    format: PrettyFormatOptions,
}

impl Default for PrettyConsoleLayer {
    fn default() -> (r: Self)
        ensures
            !r.options().wrapped,
            !r.options().oneline,
            r.options().time_format@ == default_time_format(),
            !r.options().events_only,
            r.options().show_time,
            r.options().show_target,
            r.options().show_file_info,
            r.options().show_span_info,
            r.options().indent == 6,
    {
        PrettyConsoleLayer { format: PrettyFormatOptions::default() }
    }
}

impl PrettyConsoleLayer {
    /// The options of the layer.
    pub closed spec fn options(self) -> PrettyFormatOptions {
        self.format
    }

    /// The options of the layer.
    pub fn format(&self) -> (r: &PrettyFormatOptions)
        ensures
            *r == self.options(),
    {
        &self.format
    }

    /// Sets whether span trees are buffered and printed as a whole.
    pub fn wrapped(self, wrapped: bool) -> (r: Self)
        ensures
            r.options() == (PrettyFormatOptions { wrapped: wrapped, ..self.options() }),
    {
        let mut layer = self;
        layer.format.wrapped = wrapped;
        layer
    }

    /// Sets whether each span and event is shown on one line.
    pub fn oneline(self, oneline: bool) -> (r: Self)
        ensures
            r.options() == (PrettyFormatOptions { oneline: oneline, ..self.options() }),
    {
        let mut layer = self;
        layer.format.oneline = oneline;
        layer
    }

    /// Sets the layout of timestamps.
    pub fn time_format(self, format: &str) -> (r: Self)
        ensures
            r.options().time_format@ == format@,
            r.options() == (PrettyFormatOptions {
                time_format: r.options().time_format,
                ..self.options()
            }),
    {
        let mut layer = self;
        layer.format.time_format = format.to_owned();
        layer
    }

    /// Sets whether only the events are shown.
    pub fn events_only(self, show: bool) -> (r: Self)
        ensures
            r.options() == (PrettyFormatOptions { events_only: show, ..self.options() }),
    {
        let mut layer = self;
        layer.format.events_only = show;
        layer
    }

    /// Sets whether the time is shown.
    pub fn show_time(self, show: bool) -> (r: Self)
        ensures
            r.options() == (PrettyFormatOptions { show_time: show, ..self.options() }),
    {
        let mut layer = self;
        layer.format.show_time = show;
        layer
    }

    /// Sets whether the target is shown.
    pub fn show_target(self, show: bool) -> (r: Self)
        ensures
            r.options() == (PrettyFormatOptions { show_target: show, ..self.options() }),
    {
        let mut layer = self;
        layer.format.show_target = show;
        layer
    }

    /// Sets whether the file and line are shown.
    pub fn show_file_info(self, show: bool) -> (r: Self)
        ensures
            r.options() == (PrettyFormatOptions { show_file_info: show, ..self.options() }),
    {
        let mut layer = self;
        layer.format.show_file_info = show;
        layer
    }

    /// Sets whether the span's id and name are shown.
    pub fn show_span_info(self, show: bool) -> (r: Self)
        ensures
            r.options() == (PrettyFormatOptions { show_span_info: show, ..self.options() }),
    {
        let mut layer = self;
        layer.format.show_span_info = show;
        layer
    }

    /// Sets the width of one level of indentation, in spaces.
    pub fn indent(self, indent: usize) -> (r: Self)
        ensures
            r.options() == (PrettyFormatOptions { indent: indent, ..self.options() }),
    {
        let mut layer = self;
        layer.format.indent = indent;
        layer
    }
}

} // verus!
