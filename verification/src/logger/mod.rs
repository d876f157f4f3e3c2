//! The logger: a builder that collects where to send log messages and which of
//! them, and the logger that comes out of it.

pub mod connect;
pub mod delivery;
pub mod finished;
pub mod message;
pub mod overrides;

use vstd::prelude::*;

use crate::address::SocketAddr;
use crate::frame::LengthWidth;
use crate::io_error::IoError;
use crate::level::{most_permissive, LevelFilter};
use crate::logger::finished::RemoteLoggerFinished;
use crate::logger::overrides::{find_most_permissive, sort_overrides, Override};

verus! {

/// The port that is used unless something else is asked for.
pub const DEFAULT_PORT: u16 = 50_033;

/// The error of `log::set_boxed_logger`, which is handed on as it is.
#[verifier::external_type_specification]
#[verifier::external_body]
pub struct ExSetLoggerError(log::SetLoggerError);

/// How to handle an error while a message is logged.
#[derive(Debug, Clone, Copy, PartialEq, Eq, Structural)]
pub enum LogFailureStrategy {
    /// Ignore the error and move on.
    ///
    /// This may entail the log message getting lost.
    Ignore,
    /// Panic with a descriptive error message.
    Panic,
}

/// The main logger type of this crate.
pub struct RemoteLogger {
    output_addrs: Vec<SocketAddr>,
    default_level: LevelFilter,
    module_levels: Vec<(String, LevelFilter)>,
    fail_strat: LogFailureStrategy,
    width: LengthWidth,
    timestamps: bool,
}

/// What a logger is set up to do.
pub struct Settings {
    /// The addresses that messages go to.
    pub output_addrs: Seq<SocketAddr>,
    /// The filter for targets that have no override.
    pub default_level: LevelFilter,
    /// The overrides.
    pub module_levels: Seq<Override>,
    /// What happens when a message cannot be sent.
    pub fail_strat: LogFailureStrategy,
    /// How lengths are sent.
    pub width: LengthWidth,
    /// Whether messages have the date and the time ahead of them.
    pub timestamps: bool,
}

impl View for RemoteLogger {
    type V = Settings;

    closed spec fn view(&self) -> Settings {
        Settings {
            output_addrs: self.output_addrs@,
            default_level: self.default_level,
            module_levels: crate::logger::overrides::overrides(self.module_levels@),
            fail_strat: self.fail_strat,
            width: self.width,
            timestamps: self.timestamps,
        }
    }
}

/// A failure to connect to an output address.
#[derive(Debug, PartialEq, Eq)]
pub struct ConnectError(pub SocketAddr, pub IoError);

/// A failure to initialize the [`RemoteLogger`].
#[derive(Debug)]
pub enum InitLoggerError {
    /// The logger has no output address.
    NoOutputAddr,
    /// No output address could be connected to, or not all that had to be.
    Connect(Vec<ConnectError>),
    /// The logger could not be set.
    SetLogger(log::SetLoggerError),
}

/// A logger that is ready to be set.
pub struct LoggerSetup {
    /// The most permissive filter that the logger has for any target.
    pub max_level: LevelFilter,
    /// The logger.
    pub logger: RemoteLoggerFinished,
    /// The connections that failed.
    pub failed: Vec<ConnectError>,
}

/// The failures among the attempts to connect to the addresses, in order.
pub open spec fn failures(
    addrs: Seq<SocketAddr>,
    connects: Seq<Result<(), IoError>>,
) -> Seq<ConnectError>
    decreases connects.len(),
{
    if connects.len() == 0 {
        Seq::empty()
    } else {
        let before = failures(addrs, connects.drop_last());
        match connects.last() {
            Ok(_) => before,
            Err(e) => before.push(ConnectError(addrs[connects.len() - 1], e)),
        }
    }
}

/// At least one of the attempts to connect succeeded.
pub open spec fn some_connected(connects: Seq<Result<(), IoError>>) -> bool {
    exists|i: int| 0 <= i < connects.len() && (#[trigger] connects[i]) is Ok
}

/// There are as many failures as attempts exactly if no attempt succeeded.
pub proof fn law_failures_count(addrs: Seq<SocketAddr>, connects: Seq<Result<(), IoError>>)
    ensures
        failures(addrs, connects).len() <= connects.len(),
        failures(addrs, connects).len() == connects.len() <==> !some_connected(connects),
    decreases connects.len(),
{
    if connects.len() > 0 {
        let before = connects.drop_last();
        law_failures_count(addrs, before);
        if some_connected(before) {
            let i = choose|i: int| 0 <= i < before.len() && (#[trigger] before[i]) is Ok;
            assert(connects[i] is Ok);
        }
        if some_connected(connects) {
            let i = choose|i: int| 0 <= i < connects.len() && (#[trigger] connects[i]) is Ok;
            if i < before.len() {
                assert(before[i] is Ok);
            }
        }
        if connects.last() is Ok {
            assert(connects[connects.len() - 1] is Ok);
        }
    }
}

/// There are no failures exactly if every attempt succeeded.
pub proof fn law_no_failures(addrs: Seq<SocketAddr>, connects: Seq<Result<(), IoError>>)
    ensures
        failures(addrs, connects).len() == 0 <==> forall|i: int|
            0 <= i < connects.len() ==> (#[trigger] connects[i]) is Ok,
    decreases connects.len(),
{
    if connects.len() > 0 {
        let before = connects.drop_last();
        law_no_failures(addrs, before);
        if failures(addrs, connects).len() == 0 {
            assert forall|i: int| 0 <= i < connects.len() implies (#[trigger] connects[i]) is Ok by {
                if i < before.len() {
                    assert(before[i] is Ok);
                }
            }
        }
        if forall|i: int| 0 <= i < connects.len() ==> (#[trigger] connects[i]) is Ok {
            assert forall|i: int| 0 <= i < before.len() implies (#[trigger] before[i]) is Ok by {
                assert(connects[i] is Ok);
            }
            assert(connects[connects.len() - 1] is Ok);
        }
    }
}

impl Default for RemoteLogger {
    /// Obtain a new logger set up to output to localhost (IPv4) on port `50033`.
    fn default() -> (logger: Self)
        ensures
            logger@ == (Settings {
                output_addrs: seq![
                    SocketAddr::spec_new(
                        crate::address::IpAddr::V4(crate::address::LOCALHOST_V4),
                        50_033,
                    ),
                ],
                default_level: LevelFilter::Trace,
                module_levels: Seq::empty(),
                fail_strat: LogFailureStrategy::Panic,
                width: LengthWidth::U64,
                timestamps: true,
            }),
    {
        let logger = RemoteLogger::new().with_output_localhost(DEFAULT_PORT);
        assert(logger@.output_addrs =~= seq![
            SocketAddr::spec_new(
                crate::address::IpAddr::V4(crate::address::LOCALHOST_V4),
                50_033,
            ),
        ]);
        logger
    }
}

impl RemoteLogger {
    /// Obtain a new empty logger.
    ///
    /// For a logger already set up to output to localhost on port `50033`, use
    /// [`Self::default`].
    pub fn new() -> (logger: Self)
        ensures
            logger@ == (Settings {
                output_addrs: Seq::empty(),
                default_level: LevelFilter::Trace,
                module_levels: Seq::empty(),
                fail_strat: LogFailureStrategy::Panic,
                width: LengthWidth::U64,
                timestamps: true,
            }),
    {
        let logger = RemoteLogger {
            output_addrs: Vec::new(),
            default_level: most_permissive(),
            module_levels: Vec::new(),
            fail_strat: LogFailureStrategy::Panic,
            width: LengthWidth::U64,
            timestamps: true,
        };
        assert(logger@.module_levels =~= Seq::<Override>::empty());
        logger
    }

    /// Add an address to the list of output addresses.
    pub fn with_output_addr(self, addr: SocketAddr) -> (built: Self)
        ensures
            built@ == (Settings { output_addrs: self@.output_addrs.push(addr), ..self@ }),
    {
        let mut logger = self;
        logger.output_addrs.push(addr);
        logger
    }

    /// Add multiple addresses to the list of output addresses.
    pub fn with_output_addrs(self, output_addrs: Vec<SocketAddr>) -> (built: Self)
        ensures
            built@ == (Settings { output_addrs: self@.output_addrs + output_addrs@, ..self@ }),
    {
        let mut logger = self;
        let mut added = output_addrs;
        logger.output_addrs.append(&mut added);
        logger
    }

    /// Add a localhost address (IPv4) on the specified port to the list of output
    /// addresses.
    pub fn with_output_localhost(self, port: u16) -> (built: Self)
        ensures
            built@ == (Settings {
                output_addrs: self@.output_addrs.push(
                    SocketAddr::spec_new(
                        crate::address::IpAddr::V4(crate::address::LOCALHOST_V4),
                        port,
                    ),
                ),
                ..self@
            }),
    {
        self.with_output_addr(SocketAddr::localhost(port))
    }

    /// Add a localhost address (IPv6) on the specified port to the list of output
    /// addresses.
    pub fn with_output_localhost_v6(self, port: u16) -> (built: Self)
        ensures
            built@ == (Settings {
                output_addrs: self@.output_addrs.push(
                    SocketAddr::spec_new(
                        crate::address::IpAddr::V6(crate::address::LOCALHOST_V6),
                        port,
                    ),
                ),
                ..self@
            }),
    {
        self.with_output_addr(SocketAddr::localhost_v6(port))
    }

    /// Set the default log level.
    pub fn with_default_level(self, level: LevelFilter) -> (built: Self)
        ensures
            built@ == (Settings { default_level: level, ..self@ }),
    {
        RemoteLogger { default_level: level, ..self }
    }

    /// Override the log level for the targets whose names start with `target`.
    pub fn with_module_level(self, target: &str, level: LevelFilter) -> (built: Self)
        ensures
            built@ == (Settings {
                module_levels: self@.module_levels.push((target@, level)),
                ..self@
            }),
    {
        let mut logger = self;
        logger.module_levels.push((target.to_owned(), level));
        assert(logger@.module_levels =~= self@.module_levels.push((target@, level)));
        logger
    }

    /// Override the log level for specific targets, providing multiple at once.
    pub fn with_module_levels(self, levels: Vec<(String, LevelFilter)>) -> (built: Self)
        ensures
            built@ == (Settings {
                module_levels: self@.module_levels + crate::logger::overrides::overrides(levels@),
                ..self@
            }),
    {
        let mut logger = self;
        let mut added = levels;
        logger.module_levels.append(&mut added);
        assert(logger@.module_levels =~= self@.module_levels
            + crate::logger::overrides::overrides(levels@));
        logger
    }

    /// Set the failure strategy for this logger. For more, see the docs of
    /// [`LogFailureStrategy`].
    pub fn with_failure_strategy(self, strategy: LogFailureStrategy) -> (built: Self)
        ensures
            built@ == (Settings { fail_strat: strategy, ..self@ }),
    {
        RemoteLogger { fail_strat: strategy, ..self }
    }

    /// Set how wide the lengths of messages are sent. For more, see the docs of
    /// [`LengthWidth`].
    pub fn with_length_width(self, width: LengthWidth) -> (built: Self)
        ensures
            built@ == (Settings { width, ..self@ }),
    {
        RemoteLogger { width, ..self }
    }

    /// Set whether the current date and time, to the millisecond, stand ahead of
    /// each log message. They do unless this is turned off.
    pub fn with_timestamps(self, on: bool) -> (built: Self)
        ensures
            built@ == (Settings { timestamps: on, ..self@ }),
    {
        RemoteLogger { timestamps: on, ..self }
    }

    /// The addresses that are to be connected to, in order.
    pub fn output_addrs(&self) -> (addrs: &Vec<SocketAddr>)
        ensures
            addrs@ == self@.output_addrs,
    {
        &self.output_addrs
    }

    /// Makes the logger ready to be initialized: sorts its overrides, and tells
    /// the most permissive filter that it has for any target.
    pub fn prepare_init(&mut self) -> (prepared: Result<LevelFilter, InitLoggerError>)
        ensures
            match prepared {
                Ok(max_level) => {
                    &&& old(self)@.output_addrs.len() > 0
                    &&& max_level == crate::logger::overrides::most_permissive_of(
                        old(self)@.module_levels,
                        old(self)@.default_level,
                    )
                    &&& crate::logger::overrides::sorted_from(
                        old(self)@.module_levels,
                        final(self)@.module_levels,
                    )
                    &&& final(self)@ == (Settings {
                        module_levels: final(self)@.module_levels,
                        ..old(self)@
                    })
                },
                Err(e) => {
                    &&& old(self)@.output_addrs.len() == 0
                    &&& e is NoOutputAddr
                    &&& final(self)@ == old(self)@
                },
            },
    {
        if self.output_addrs.is_empty() {
            return Err(InitLoggerError::NoOutputAddr);
        }
        sort_overrides(&mut self.module_levels);
        proof {
            crate::logger::overrides::law_sorting_keeps_the_most_permissive(
                old(self)@.module_levels,
                self@.module_levels,
                self@.default_level,
            );
        }
        Ok(find_most_permissive(&self.module_levels, self.default_level))
    }

    /// Makes a logger out of the settings, given how the attempts to connect to
    /// the output addresses went, each of which goes by [`connect`](Self::connect):
    /// over every stream that was connected, the header has been sent.
    ///
    /// If connecting to at least one output address succeeds, the logger is
    /// ready, and comes with the list of failed connections. It still has to be
    /// set.
    pub fn init(self, connects: Vec<Result<(), IoError>>) -> (setup: Result<
        LoggerSetup,
        InitLoggerError,
    >)
        requires
            connects@.len() == self@.output_addrs.len(),
        ensures
            match setup {
                Ok(setup) => {
                    &&& some_connected(connects@)
                    &&& setup.failed@ == failures(self@.output_addrs, connects@)
                    &&& setup.max_level == crate::logger::overrides::most_permissive_of(
                        self@.module_levels,
                        self@.default_level,
                    )
                    &&& crate::logger::overrides::sorted_from(
                        self@.module_levels,
                        setup.logger@.module_levels,
                    )
                    &&& setup.logger@.default_level == self@.default_level
                    &&& setup.logger@.fail_strat == self@.fail_strat
                    &&& setup.logger@.width == self@.width
                    &&& setup.logger@.timestamps == self@.timestamps
                },
                Err(InitLoggerError::NoOutputAddr) => self@.output_addrs.len() == 0,
                Err(InitLoggerError::Connect(failed)) => {
                    &&& self@.output_addrs.len() > 0
                    &&& !some_connected(connects@)
                    &&& failed@ == failures(self@.output_addrs, connects@)
                },
                Err(InitLoggerError::SetLogger(_)) => false,
            },
    {
        let ghost given = connects@;
        let ghost addrs = self@.output_addrs;
        let mut prepared = self;
        let max_level = match prepared.prepare_init() {
            Ok(max_level) => max_level,
            Err(e) => {
                return Err(e);
            },
        };
        let total: usize = prepared.output_addrs.len();
        let mut failed: Vec<ConnectError> = Vec::new();
        let mut connected: usize = 0;
        let mut at: usize = 0;
        for outcome in rest: connects
            invariant
                rest.seq() == given,
                at == rest.index(),
                given.len() == total,
                addrs.len() == total,
                prepared.output_addrs@ == addrs,
                connected <= at,
                connected + failed@.len() == at,
                failed@ == failures(addrs, given.take(at as int)),
        {
            proof {
                assert(given.take(at + 1).drop_last() =~= given.take(at as int));
            }
            match outcome {
                Ok(_) => {
                    connected = connected + 1;
                },
                Err(e) => {
                    failed.push(ConnectError(prepared.output_addrs[at], e));
                },
            }
            at = at + 1;
        }
        proof {
            assert(given.take(at as int) =~= given);
            law_failures_count(addrs, given);
        }
        if connected == 0 {
            return Err(InitLoggerError::Connect(failed));
        }
        let logger = RemoteLoggerFinished::new(
            prepared.default_level,
            prepared.module_levels,
            prepared.fail_strat,
            prepared.width,
            prepared.timestamps,
        );
        Ok(LoggerSetup { max_level, logger, failed })
    }

    /// What the initialization returns that fails if any of the connections
    /// fails, given what the other one returned.
    pub fn init_all(initialized: Result<Vec<ConnectError>, InitLoggerError>) -> (all: Result<
        (),
        InitLoggerError,
    >)
        ensures
            match initialized {
                Ok(failed) if failed@.len() == 0 => all == Ok::<(), InitLoggerError>(()),
                Ok(failed) => all == Err::<(), InitLoggerError>(InitLoggerError::Connect(failed)),
                Err(e) => all == Err::<(), InitLoggerError>(e),
            },
    {
        match initialized {
            Ok(failed) => {
                if failed.is_empty() {
                    Ok(())
                } else {
                    Err(InitLoggerError::Connect(failed))
                }
            },
            Err(e) => Err(e),
        }
    }
}

/// What the initialization returns, given which connections failed and whether
/// the logger could be set.
pub fn initialized(failed: Vec<ConnectError>, set: Result<(), log::SetLoggerError>) -> (outcome:
    Result<Vec<ConnectError>, InitLoggerError>)
    ensures
        outcome == match set {
            Ok(_) => Ok::<Vec<ConnectError>, InitLoggerError>(failed),
            Err(e) => Err::<Vec<ConnectError>, InitLoggerError>(InitLoggerError::SetLogger(e)),
        },
{
    match set {
        Ok(_) => Ok(failed),
        Err(e) => Err(InitLoggerError::SetLogger(e)),
    }
}

/// The failures are those of the attempts that failed: each such attempt is among
/// them with the address that it was made on and with its error, there are no
/// others, they are as many, and they stand in the order of the attempts.
pub proof fn law_failures_are_the_failed_attempts(
    addrs: Seq<SocketAddr>,
    connects: Seq<Result<(), IoError>>,
)
    ensures
        ({
            let failed = failures(addrs, connects);
            &&& failed.len() == connects.filter(|connect: Result<(), IoError>| connect is Err).len()
            &&& forall|i: int|
                0 <= i < connects.len() ==> ((#[trigger] connects[i]) matches Err(e)
                    ==> failed.contains(ConnectError(addrs[i], e)))
            &&& forall|k: int|
                0 <= k < failed.len() ==> exists|i: int|
                    0 <= i < connects.len() && (#[trigger] connects[i]) == Err::<(), IoError>(
                        (#[trigger] failed[k]).1,
                    ) && addrs[i] == failed[k].0
            &&& forall|k: int, l: int|
                0 <= k < l < failed.len() ==> exists|i: int, j: int|
                    0 <= i < j < connects.len() && (#[trigger] connects[i]) == Err::<(), IoError>(
                        (#[trigger] failed[k]).1,
                    ) && addrs[i] == failed[k].0 && (#[trigger] connects[j]) == Err::<(), IoError>(
                        (#[trigger] failed[l]).1,
                    ) && addrs[j] == failed[l].0
        }),
    decreases connects.len(),
{
    reveal(Seq::filter);
    if connects.len() > 0 {
        let last = connects.len() - 1;
        let before = connects.drop_last();
        let was = failures(addrs, before);
        let failed = failures(addrs, connects);
        law_failures_are_the_failed_attempts(addrs, before);
        assert(was.is_prefix_of(failed));
        assert forall|i: int| 0 <= i < connects.len() implies ((#[trigger] connects[i]) matches Err(
            e,
        ) ==> failed.contains(ConnectError(addrs[i], e))) by {
            if let Err(e) = connects[i] {
                let failure = ConnectError(addrs[i], e);
                if i < last {
                    assert(before[i] == connects[i]);
                    let k = choose|k: int| 0 <= k < was.len() && was[k] == failure;
                    assert(failed[k] == failure);
                } else {
                    assert(failed[was.len() as int] == failure);
                }
            }
        }
        assert forall|k: int| 0 <= k < failed.len() implies exists|i: int|
            0 <= i < connects.len() && (#[trigger] connects[i]) == Err::<(), IoError>(
                (#[trigger] failed[k]).1,
            ) && addrs[i] == failed[k].0 by {
            if k < was.len() {
                assert(failed[k] == was[k]);
                let i = choose|i: int|
                    0 <= i < before.len() && (#[trigger] before[i]) == Err::<(), IoError>(was[k].1)
                        && addrs[i] == was[k].0;
                assert(connects[i] == before[i]);
            } else {
                assert(connects[last] == Err::<(), IoError>(failed[k].1));
            }
        }
        assert forall|k: int, l: int| 0 <= k < l < failed.len() implies exists|i: int, j: int|
            0 <= i < j < connects.len() && (#[trigger] connects[i]) == Err::<(), IoError>(
                (#[trigger] failed[k]).1,
            ) && addrs[i] == failed[k].0 && (#[trigger] connects[j]) == Err::<(), IoError>(
                (#[trigger] failed[l]).1,
            ) && addrs[j] == failed[l].0 by {
            assert(failed[k] == was[k]);
            if l < was.len() {
                assert(failed[l] == was[l]);
                let (i, j) = choose|i: int, j: int|
                    0 <= i < j < before.len() && (#[trigger] before[i]) == Err::<(), IoError>(
                        was[k].1,
                    ) && addrs[i] == was[k].0 && (#[trigger] before[j]) == Err::<(), IoError>(
                        was[l].1,
                    ) && addrs[j] == was[l].0;
                assert(connects[i] == before[i] && connects[j] == before[j]);
            } else {
                let i = choose|i: int|
                    0 <= i < before.len() && (#[trigger] before[i]) == Err::<(), IoError>(was[k].1)
                        && addrs[i] == was[k].0;
                assert(connects[i] == before[i]);
                assert(connects[last] == Err::<(), IoError>(failed[l].1));
            }
        }
    }
}

/// That some attempt succeeded is to say that not all failed.
pub proof fn law_some_connected(connects: Seq<Result<(), IoError>>)
    ensures
        !some_connected(connects) <==> forall|i: int|
            0 <= i < connects.len() ==> (#[trigger] connects[i]) is Err,
{
}

} // verus!
