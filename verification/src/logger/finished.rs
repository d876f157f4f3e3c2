//! The logger that is set: which messages it lets through, and how it sends
//! them.

use vstd::prelude::*;

use crate::frame::LengthWidth;
use crate::level::{Level, LevelFilter};
use crate::logger::delivery::Delivery;
use crate::logger::message::{format_message, Metadata, Record};
use crate::logger::overrides::{find_filter, Override};
use crate::logger::LogFailureStrategy;

verus! {

/// A logger whose connections are open.
pub struct RemoteLoggerFinished {
    default_level: LevelFilter,
    module_levels: Vec<(String, LevelFilter)>,
    fail_strat: LogFailureStrategy,
    width: LengthWidth,
    timestamps: bool,
}

/// What a logger whose connections are open is set up to do.
pub struct FinishedSettings {
    /// The filter for targets that have no override.
    pub default_level: LevelFilter,
    /// The overrides, in the sequence in which they are tried.
    pub module_levels: Seq<Override>,
    /// What happens when a message cannot be sent.
    pub fail_strat: LogFailureStrategy,
    /// How lengths are sent.
    pub width: LengthWidth,
    /// Whether messages have the date and the time ahead of them.
    pub timestamps: bool,
}

impl FinishedSettings {
    /// Messages of this level and target are let through.
    pub open spec fn lets_through(self, level: Level, target: Seq<char>) -> bool {
        level.spec_passes(
            crate::logger::overrides::filter_for(self.module_levels, self.default_level, target),
        )
    }
}

impl View for RemoteLoggerFinished {
    type V = FinishedSettings;

    closed spec fn view(&self) -> FinishedSettings {
        FinishedSettings {
            default_level: self.default_level,
            module_levels: crate::logger::overrides::overrides(self.module_levels@),
            fail_strat: self.fail_strat,
            width: self.width,
            timestamps: self.timestamps,
        }
    }
}

impl RemoteLoggerFinished {
    pub(crate) fn new(
        default_level: LevelFilter,
        module_levels: Vec<(String, LevelFilter)>,
        fail_strat: LogFailureStrategy,
        width: LengthWidth,
        timestamps: bool,
    ) -> (logger: Self)
        ensures
            logger@ == (FinishedSettings {
                default_level,
                module_levels: crate::logger::overrides::overrides(module_levels@),
                fail_strat,
                width,
                timestamps,
            }),
    {
        RemoteLoggerFinished { default_level, module_levels, fail_strat, width, timestamps }
    }

    /// Whether messages of this level and target are let through.
    pub fn enabled(&self, metadata: &Metadata) -> (yes: bool)
        ensures
            yes == self@.lets_through(metadata.level, metadata.target@),
    {
        self.passes(metadata.level, metadata.target.as_str())
    }

    fn passes(&self, level: Level, target: &str) -> (yes: bool)
        ensures
            yes == self@.lets_through(level, target@),
    {
        // the overrides are sorted, so the first match can be taken
        level.passes(find_filter(&self.module_levels, self.default_level, target))
    }

    /// The delivery of a text.
    pub fn deliver(&self, text: &str) -> (delivery: Delivery)
        ensures
            delivery@ == crate::logger::delivery::parcel_of(
                self@.width,
                self@.fail_strat,
                text@,
            ),
            delivery@.body.len() <= usize::MAX,
    {
        Delivery::new(self.width, self.fail_strat, text)
    }

    /// The delivery of a log message, with the current date and time ahead of it,
    /// unless these are turned off; none if messages of its level and target are
    /// not let through.
    ///
    /// The message is put together once: all streams are sent the same text.
    ///
    /// # Panics
    ///
    /// Where the date and the time are needed, panics if they cannot be told; see
    /// [`format_message`].
    pub fn log(&self, record: &Record) -> (delivery: Option<Delivery>)
        ensures
            delivery is Some <==> self@.lets_through(record.level, record.target@),
            delivery matches Some(delivery) ==> {
                &&& delivery@.body.len() <= usize::MAX
                &&& if self@.timestamps {
                    exists|timestamp: Seq<char>| #[trigger]
                        crate::logger::message::is_timestamp(timestamp) && delivery@
                            == crate::logger::delivery::parcel_of(
                            self@.width,
                            self@.fail_strat,
                            crate::logger::message::message_text(timestamp, *record),
                        )
                } else {
                    delivery@ == crate::logger::delivery::parcel_of(
                        self@.width,
                        self@.fail_strat,
                        record.spec_text(),
                    )
                }
            },
    {
        if !self.passes(record.level, record.target.as_str()) {
            return None;
        }
        let text = if self.timestamps {
            format_message(record)
        } else {
            record.text()
        };
        Some(self.deliver(text.as_str()))
    }
}

/// The most specific override that applies to a target decides on it, whatever the
/// default is: messages are let through exactly if its filter lets their level
/// through.
pub proof fn law_the_most_specific_override_decides(
    levels: Seq<Override>,
    settings: FinishedSettings,
    level: Level,
    target: Seq<char>,
    at: int,
)
    requires
        crate::logger::overrides::sorted_from(levels, settings.module_levels),
        0 <= at < levels.len(),
        levels[at].0.is_prefix_of(target),
        forall|i: int|
            0 <= i < levels.len() && (#[trigger] levels[i].0).is_prefix_of(target) ==> {
                let len = vstd::utf8::encode_utf8(levels[i].0).len();
                let longest = vstd::utf8::encode_utf8(levels[at].0).len();
                len < longest || (len == longest && at <= i)
            },
    ensures
        settings.lets_through(level, target) <==> level.spec_rank() <= levels[at].1.spec_rank(),
{
    crate::logger::overrides::law_the_most_specific_override_counts(
        levels,
        settings.module_levels,
        target,
        at,
    );
}

/// Where no override applies to a target, the default decides: messages are let
/// through exactly if it lets their level through.
pub proof fn law_the_default_decides_elsewhere(
    levels: Seq<Override>,
    settings: FinishedSettings,
    level: Level,
    target: Seq<char>,
)
    requires
        crate::logger::overrides::sorted_from(levels, settings.module_levels),
        forall|i: int| 0 <= i < levels.len() ==> !(#[trigger] levels[i].0).is_prefix_of(target),
    ensures
        settings.lets_through(level, target) <==> level.spec_rank()
            <= settings.default_level.spec_rank(),
{
    let sorted = settings.module_levels;
    crate::logger::overrides::law_sorting_keeps_all_overrides(levels, sorted);
    assert forall|i: int| 0 <= i < sorted.len() implies !(#[trigger] sorted[i].0).is_prefix_of(
        target,
    ) by {
        assert(sorted.contains(sorted[i]));
        let k = choose|k: int| 0 <= k < levels.len() && levels[k] == sorted[i];
        assert(!levels[k].0.is_prefix_of(target));
    }
    crate::logger::overrides::law_the_first_override_that_applies_counts(sorted, target);
}

/// Of overrides that are tried in sequence, the first that applies decides, whatever
/// the default is; where none applies, the default does.
pub proof fn law_the_first_override_decides(
    settings: FinishedSettings,
    level: Level,
    target: Seq<char>,
)
    ensures
        forall|at: int|
            0 <= at < settings.module_levels.len() && (
            #[trigger] settings.module_levels[at]).0.is_prefix_of(target) && (forall|i: int|
                0 <= i < at ==> !(#[trigger] settings.module_levels[i].0).is_prefix_of(target))
                ==> (settings.lets_through(level, target) <==> level.spec_rank()
                <= settings.module_levels[at].1.spec_rank()),
        (forall|i: int|
            0 <= i < settings.module_levels.len() ==> !(
            #[trigger] settings.module_levels[i].0).is_prefix_of(target)) ==> (
        settings.lets_through(level, target) <==> level.spec_rank()
            <= settings.default_level.spec_rank()),
{
    crate::logger::overrides::law_the_first_override_that_applies_counts(
        settings.module_levels,
        target,
    );
}

} // verus!
