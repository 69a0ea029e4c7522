//! Which progress bars a run shows.
use vstd::prelude::*;

verus! {

/// `indicatif::ProgressStyle`, carried through unread.
#[verifier::external_type_specification]
#[verifier::external_body]
pub struct ExProgressStyle(indicatif::ProgressStyle);

/// The template of the bar that counts the downloads.
pub const DEFAULT_TOTAL_PROGRESS: &'static str =
    "{elapsed_precise} {bar:30.cyan} {human_pos:>} / {human_len} ({percent}%)";

/// The template of the bar of one download.
pub const DEFAULT_INDIVIDUAL_PROGRESS: &'static str =
    "{bar:30.blue/red} ({percent}%) {bytes:>12.green} / {total_bytes:<12.green} {bytes_per_sec:>13.blue} - ETA: {eta_precise}";

/// The characters that the bar of one download is drawn with.
pub const PROGRESS_LINE: &'static str = "━╾╴─";

/// Makes the style of the bar that counts the downloads with
/// `ProgressStyle::with_template`, which accepts that template.
#[verifier::external_body]
fn default_total_style() -> indicatif::ProgressStyle {
    indicatif::ProgressStyle::with_template(DEFAULT_TOTAL_PROGRESS).unwrap()
}

/// Makes the style of the bar of one download with
/// `ProgressStyle::with_template`, which accepts that template, and
/// `progress_chars`.
#[verifier::external_body]
fn default_individual_style() -> indicatif::ProgressStyle {
    indicatif::ProgressStyle::with_template(DEFAULT_INDIVIDUAL_PROGRESS).unwrap().progress_chars(
        PROGRESS_LINE,
    )
}

/// The styles of the progress bars; a bar without a style is not shown.
pub struct Progress {
    total: Option<indicatif::ProgressStyle>,
    individual: Option<indicatif::ProgressStyle>,
}

impl Progress {
    /// The style of the bar that counts the downloads.
    pub closed spec fn total(&self) -> Option<indicatif::ProgressStyle> {
        self.total
    }

    /// The style of the bar of each download.
    pub closed spec fn individual(&self) -> Option<indicatif::ProgressStyle> {
        self.individual
    }

    /// Whether any bar is shown.
    pub open spec fn enabled(&self) -> bool {
        self.total() is Some || self.individual() is Some
    }

    /// No bars.
    pub fn new() -> (r: Self)
        ensures
            r.total() is None,
            r.individual() is None,
    {
        Self { total: None, individual: None }
    }

    /// Shows the bar that counts the downloads, in its usual style.
    pub fn with_default_total(self) -> (r: Self)
        ensures
            r.total() is Some,
            r.individual() == self.individual(),
    {
        Self { total: Some(default_total_style()), individual: self.individual }
    }

    /// Shows a bar for each download, in its usual style.
    pub fn with_default_individual(self) -> (r: Self)
        ensures
            r.total() == self.total(),
            r.individual() is Some,
    {
        Self { total: self.total, individual: Some(default_individual_style()) }
    }

    /// Shows the bar that counts the downloads, in the style `style`.
    pub fn with_total(self, style: indicatif::ProgressStyle) -> (r: Self)
        ensures
            r.total() == Some(style),
            r.individual() == self.individual(),
    {
        Self { total: Some(style), individual: self.individual }
    }

    /// Shows a bar for each download, in the style `style`.
    pub fn with_individual(self, style: indicatif::ProgressStyle) -> (r: Self)
        ensures
            r.total() == self.total(),
            r.individual() == Some(style),
    {
        Self { total: self.total, individual: Some(style) }
    }

    /// Whether any bar is shown.
    pub fn is_enabled(&self) -> (r: bool)
        ensures
            r == self.enabled(),
    {
        self.total.is_some() || self.individual.is_some()
    }

    /// Whether the bar that counts the downloads has a style.
    pub fn has_total(&self) -> (r: bool)
        ensures
            r == self.total() is Some,
    {
        self.total.is_some()
    }

    /// Whether the bar of each download has a style.
    pub fn has_individual(&self) -> (r: bool)
        ensures
            r == self.individual() is Some,
    {
        self.individual.is_some()
    }

    /// The style of the bar that counts the downloads.
    pub fn total_style(&self) -> (r: &Option<indicatif::ProgressStyle>)
        ensures
            *r == self.total(),
    {
        &self.total
    }

    /// The style of the bar of each download.
    pub fn individual_style(&self) -> (r: &Option<indicatif::ProgressStyle>)
        ensures
            *r == self.individual(),
    {
        &self.individual
    }
}

impl Default for Progress {
    /// Both bars, each in its usual style.
    fn default() -> (r: Self)
        ensures
            r.total() is Some,
            r.individual() is Some,
    {
        Self::new().with_default_total().with_default_individual()
    }
}

} // verus!
