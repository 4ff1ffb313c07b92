//! Reading the settings: the range of ports as it is written on the command
//! line, the settings that the command line leaves open, and those that
//! the configuration file adds.

use vstd::prelude::*;
use vstd::string::{StrSliceExecFns, StringExecFns};
use crate::config::base::{
    Config, Opts, PortRange, ScanOrder, ScriptRequired, LOWEST_PORT_NUMBER, TOP_PORT_NUMBER,
};
use crate::support::text::{first_of, lemma_first_of_is};

verus! {

/// What is said of a range that cannot be read.
pub const RANGE_FORMAT_ERROR: &'static str = "The Range Format Must Be 'Start-End'. Example 1-1000";

/// What is said of a range whose end lies before its start.
pub const RANGE_ORDER_ERROR: &'static str =
    "The Range Must Not End Before It Starts. Example 1-1000";

/// The batch size that suits most systems.
pub const AVERAGE_BATCH_SIZE: u64 = 3000;

/// The limit of open files above which the average batch size is taken.
pub const DEFAULT_FILE_DESCRIPTORS_LIMIT: u64 = 8000;

/// Whether a character is a decimal digit.
pub open spec fn is_digit(c: char) -> bool {
    '0' <= c && c <= '9'
}

/// The number that a decimal digit stands for.
pub open spec fn digit_value(c: char) -> int {
    c as u32 - '0' as u32
}

/// The number that a run of decimal digits spells.
pub open spec fn digits_value(digits: Seq<char>) -> int
    decreases digits.len(),
{
    if digits.len() == 0 {
        0
    } else {
        digits_value(digits.drop_last()) * 10 + digit_value(digits.last())
    }
}

/// A text without the plus sign that it may begin with.
pub open spec fn unsigned(text: Seq<char>) -> Seq<char> {
    if text.len() > 0 && text[0] == '+' {
        text.drop_first()
    } else {
        text
    }
}

/// The port that a text spells: decimal digits, at least one, after at most
/// one plus sign, whose number is a port.
pub open spec fn port_number(text: Seq<char>) -> Option<u16> {
    let digits = unsigned(text);
    if digits.len() > 0 && (forall|i: int| 0 <= i < digits.len() ==> is_digit(#[trigger] digits[i]))
        && digits_value(digits) <= 65535 {
        Some(digits_value(digits) as u16)
    } else {
        None
    }
}

/// Reads a port from a text.
pub fn parse_port(text: &str) -> (port: Option<u16>)
    ensures
        port == port_number(text@),
{
    let n: usize = text.unicode_len();
    let mut i: usize = 0;
    if n > 0 && text.get_char(0) == '+' {
        i = 1;
    }
    let start: usize = i;
    let ghost digits = unsigned(text@);
    assert(digits =~= text@.skip(start as int));
    if i == n {
        return None;
    }
    let mut value: u32 = 0;
    let mut too_large: bool = false;
    assert(digits.take(0) =~= Seq::<char>::empty());
    while i < n
        invariant
            start <= i <= n,
            n == text@.len(),
            digits == text@.skip(start as int),
            digits == unsigned(text@),
            forall|j: int| 0 <= j < i - start ==> is_digit(#[trigger] digits[j]),
            !too_large ==> value == digits_value(digits.take(i - start)) && value <= 65535,
            too_large ==> digits_value(digits.take(i - start)) > 65535,
        decreases n - i,
    {
        let c: char = text.get_char(i);
        assert(c == digits[i - start]);
        if c < '0' || c > '9' {
            assert(!is_digit(digits[i - start]));
            return None;
        }
        let digit: u32 = (c as u32) - ('0' as u32);
        proof {
            let longer = digits.take(i - start + 1);
            assert(longer.drop_last() =~= digits.take(i - start));
            assert(longer.last() == c);
        }
        if !too_large {
            value = value * 10 + digit;
            if value > 65535 {
                too_large = true;
            }
        }
        i += 1;
    }
    assert(digits.take(i - start) =~= digits);
    if too_large {
        None
    } else {
        Some(value as u16)
    }
}

/// The two ports that a text of the form `start-end` spells.
pub open spec fn range_ends(text: Seq<char>) -> Option<(u16, u16)> {
    let stroke = first_of(text, '-');
    if stroke < text.len() {
        match (port_number(text.take(stroke)), port_number(text.skip(stroke + 1))) {
            (Some(start), Some(end)) => Some((start, end)),
            _ => None,
        }
    } else {
        None
    }
}

/// Reads a range of ports from a text of the form `start-end`. The range
/// is refused where the text has another form, and where its end lies
/// before its start.
pub fn parse_range(input: &str) -> (range: Result<PortRange, String>)
    ensures
        match range_ends(input@) {
            Some((start, end)) => if start <= end {
                range == Ok::<PortRange, String>(PortRange { start, end })
            } else {
                range.is_err() && range.unwrap_err()@ == RANGE_ORDER_ERROR@
            },
            None => range.is_err() && range.unwrap_err()@ == RANGE_FORMAT_ERROR@,
        },
{
    let n: usize = input.unicode_len();
    let mut stroke: usize = 0;
    while stroke < n && input.get_char(stroke) != '-'
        invariant
            0 <= stroke <= n,
            n == input@.len(),
            forall|i: int| 0 <= i < stroke ==> #[trigger] input@[i] != '-',
        decreases n - stroke,
    {
        stroke += 1;
    }
    proof {
        lemma_first_of_is(input@, '-', stroke as int);
    }
    if stroke == n {
        return Err(String::from_str(RANGE_FORMAT_ERROR));
    }
    let left = input.substring_char(0, stroke);
    let right = input.substring_char(stroke + 1, n);
    proof {
        assert(input@.subrange(0, stroke as int) =~= input@.take(stroke as int));
        assert(input@.subrange(stroke + 1, n as int) =~= input@.skip(stroke + 1));
    }
    match (parse_port(left), parse_port(right)) {
        (Some(start), Some(end)) => {
            if start <= end {
                Ok(PortRange { start, end })
            } else {
                Err(String::from_str(RANGE_ORDER_ERROR))
            }
        },
        _ => Err(String::from_str(RANGE_FORMAT_ERROR)),
    }
}

/// A copy of a list of texts.
pub fn clone_strings(texts: &Vec<String>) -> (copy: Vec<String>)
    ensures
        copy@ == texts@,
{
    let mut copy: Vec<String> = Vec::new();
    let mut i: usize = 0;
    while i < texts.len()
        invariant
            0 <= i <= texts@.len(),
            copy@ == texts@.take(i as int),
        decreases texts@.len() - i,
    {
        copy.push(texts[i].clone());
        i += 1;
        assert(copy@ =~= texts@.take(i as int));
    }
    assert(texts@.take(texts@.len() as int) =~= texts@);
    copy
}

/// A copy of a list of ports.
pub fn clone_ports(ports: &Vec<u16>) -> (copy: Vec<u16>)
    ensures
        copy@ == ports@,
{
    let copy = ports.clone();
    assert(copy@ =~= ports@);
    copy
}

/// A list of ports as a value, where there is one.
pub open spec fn ports_view(ports: Option<Vec<u16>>) -> Option<Seq<u16>> {
    match ports {
        Some(ports) => Some(ports@),
        None => None,
    }
}

/// The ports that the keys of `entries` spell, in their order.
pub open spec fn key_ports(entries: Seq<(String, u16)>) -> Seq<u16> {
    Seq::new(entries.len(), |i: int| port_number(entries[i].0@).unwrap())
}

/// Whether each key of `entries` spells a port.
pub open spec fn keys_are_ports(entries: Seq<(String, u16)>) -> bool {
    forall|i: int| 0 <= i < entries.len() ==> port_number(#[trigger] entries[i].0@).is_some()
}

impl Config {
    /// Whether the ports that the file names can be taken over: each of
    /// their keys spells a port.
    pub open spec fn wf(self) -> bool {
        self.ports.is_some() ==> keys_are_ports(self.ports.unwrap()@)
    }

    /// Whether each key of the ports that the file names spells a port.
    pub fn is_valid(&self) -> (valid: bool)
        ensures
            valid == self.wf(),
    {
        match &self.ports {
            None => true,
            Some(entries) => {
                let mut i: usize = 0;
                while i < entries.len()
                    invariant
                        0 <= i <= entries@.len(),
                        self.ports == Some(*entries),
                        forall|j: int|
                            0 <= j < i ==> port_number(#[trigger] entries@[j].0@).is_some(),
                    decreases entries@.len() - i,
                {
                    if parse_port(entries[i].0.as_str()).is_none() {
                        assert(port_number(entries@[i as int].0@).is_none());
                        return false;
                    }
                    i += 1;
                }
                true
            },
        }
    }
}

/// Whether `after` holds, of the settings that the file always overrides,
/// what the file names and else what `before` holds.
pub open spec fn required_merged(before: Opts, config: Config, after: Opts) -> bool {
    &&& after.addresses@ == (match config.addresses {
        Some(addresses) => addresses@,
        None => before.addresses@,
    })
    &&& after.greppable == config.greppable.unwrap_or(before.greppable)
    &&& after.accessible == config.accessible.unwrap_or(before.accessible)
    &&& after.batch_size == config.batch_size.unwrap_or(before.batch_size)
    &&& after.timeout == config.timeout.unwrap_or(before.timeout)
    &&& after.tries == config.tries.unwrap_or(before.tries)
    &&& after.scan_order == config.scan_order.unwrap_or(before.scan_order)
    &&& after.scripts == config.scripts.unwrap_or(before.scripts)
    &&& after.command@ == (match config.command {
        Some(command) => command@,
        None => before.command@,
    })
    &&& after.udp == config.udp.unwrap_or(before.udp)
}

/// Whether `after` holds, of the settings that the file always overrides,
/// what `before` holds.
pub open spec fn required_kept(before: Opts, after: Opts) -> bool {
    &&& after.addresses@ == before.addresses@
    &&& after.greppable == before.greppable
    &&& after.accessible == before.accessible
    &&& after.batch_size == before.batch_size
    &&& after.timeout == before.timeout
    &&& after.tries == before.tries
    &&& after.scan_order == before.scan_order
    &&& after.scripts == before.scripts
    &&& after.command@ == before.command@
    &&& after.udp == before.udp
}

/// Whether `after` holds, of the settings that may be absent, what the file
/// names and else what `before` holds. The ports are those of the file
/// only where the command line asks for them.
pub open spec fn optional_merged(before: Opts, config: Config, after: Opts) -> bool {
    &&& ports_view(after.ports) == (if before.top && config.ports.is_some() {
        Some(key_ports(config.ports.unwrap()@))
    } else {
        ports_view(before.ports)
    })
    &&& after.range == (if config.range.is_some() {
        config.range
    } else {
        before.range
    })
    &&& after.resolver == (if config.resolver.is_some() {
        config.resolver
    } else {
        before.resolver
    })
    &&& after.ulimit == (if config.ulimit.is_some() {
        config.ulimit
    } else {
        before.ulimit
    })
    &&& ports_view(after.exclude_ports) == (if config.exclude_ports.is_some() {
        ports_view(config.exclude_ports)
    } else {
        ports_view(before.exclude_ports)
    })
}

/// Whether `after` holds, of the settings that may be absent, what `before`
/// holds.
pub open spec fn optional_kept(before: Opts, after: Opts) -> bool {
    &&& ports_view(after.ports) == ports_view(before.ports)
    &&& after.range == before.range
    &&& after.resolver == before.resolver
    &&& after.ulimit == before.ulimit
    &&& ports_view(after.exclude_ports) == ports_view(before.exclude_ports)
}

/// Whether `after` holds what `before` holds of the settings that the file
/// cannot give.
pub open spec fn others_kept(before: Opts, after: Opts) -> bool {
    &&& after.no_config == before.no_config
    &&& after.config_path == before.config_path
    &&& after.top == before.top
}

impl Default for Opts {
    /// The settings of a run without a command line: nothing to scan,
    /// greppable output, the serial order, the default script, and no
    /// configuration file.
    fn default() -> (opts: Self)
        ensures
            opts.addresses@.len() == 0,
            opts.ports.is_none(),
            opts.range.is_none(),
            opts.greppable,
            opts.batch_size == 0,
            opts.timeout == 0,
            opts.tries == 0,
            opts.ulimit.is_none(),
            opts.command@.len() == 0,
            !opts.accessible,
            opts.resolver.is_none(),
            opts.scan_order == ScanOrder::Serial,
            opts.no_config,
            !opts.top,
            opts.scripts == ScriptRequired::Default,
            opts.config_path.is_none(),
            opts.exclude_ports.is_none(),
            !opts.udp,
    {
        Opts {
            addresses: Vec::new(),
            ports: None,
            range: None,
            greppable: true,
            batch_size: 0,
            timeout: 0,
            tries: 0,
            ulimit: None,
            command: Vec::new(),
            accessible: false,
            resolver: None,
            scan_order: ScanOrder::Serial,
            no_config: true,
            top: false,
            scripts: ScriptRequired::Default,
            config_path: None,
            exclude_ports: None,
            udp: false,
        }
    }
}

impl Opts {
    /// Completes the settings that were read from the command line: where
    /// they name neither ports nor a range, the range is that of all
    /// ports.
    pub fn read(parsed: Opts) -> (opts: Self)
        ensures
            opts == (if parsed.ports.is_none() && parsed.range.is_none() {
                Opts {
                    range: Some(PortRange { start: LOWEST_PORT_NUMBER, end: TOP_PORT_NUMBER }),
                    ..parsed
                }
            } else {
                parsed
            }),
    {
        let mut opts = parsed;
        if opts.ports.is_none() && opts.range.is_none() {
            opts.range = Some(PortRange { start: LOWEST_PORT_NUMBER, end: TOP_PORT_NUMBER });
        }
        opts
    }

    /// Takes over the settings of the configuration file, unless the
    /// command line says to pass the file over.
    pub fn merge(&mut self, config: &Config)
        requires
            !old(self).no_config && old(self).top ==> config.wf(),
        ensures
            others_kept(*old(self), *final(self)),
            old(self).no_config ==> required_kept(*old(self), *final(self)) && optional_kept(
                *old(self),
                *final(self),
            ),
            !old(self).no_config ==> required_merged(*old(self), *config, *final(self))
                && optional_merged(*old(self), *config, *final(self)),
    {
        if !self.no_config {
            self.merge_required(config);
            self.merge_optional(config);
        }
    }

    /// Takes over each setting that the file names among those that it
    /// always overrides.
    pub fn merge_required(&mut self, config: &Config)
        ensures
            required_merged(*old(self), *config, *final(self)),
            optional_kept(*old(self), *final(self)),
            others_kept(*old(self), *final(self)),
    {
        if let Some(addresses) = &config.addresses {
            self.addresses = clone_strings(addresses);
        }
        if let Some(command) = &config.command {
            self.command = clone_strings(command);
        }
        self.greppable = match config.greppable {
            Some(greppable) => greppable,
            None => self.greppable,
        };
        self.accessible = match config.accessible {
            Some(accessible) => accessible,
            None => self.accessible,
        };
        self.batch_size = match config.batch_size {
            Some(batch_size) => batch_size,
            None => self.batch_size,
        };
        self.timeout = match config.timeout {
            Some(timeout) => timeout,
            None => self.timeout,
        };
        self.tries = match config.tries {
            Some(tries) => tries,
            None => self.tries,
        };
        self.scan_order = match config.scan_order {
            Some(scan_order) => scan_order,
            None => self.scan_order,
        };
        self.scripts = match config.scripts {
            Some(scripts) => scripts,
            None => self.scripts,
        };
        self.udp = match config.udp {
            Some(udp) => udp,
            None => self.udp,
        };
    }

    /// Takes over each setting that the file names among those that may
    /// be absent, and the ports of the file where the command line asks
    /// for them.
    pub fn merge_optional(&mut self, config: &Config)
        requires
            old(self).top ==> config.wf(),
        ensures
            optional_merged(*old(self), *config, *final(self)),
            required_kept(*old(self), *final(self)),
            others_kept(*old(self), *final(self)),
    {
        if self.top {
            if let Some(entries) = &config.ports {
                let mut ports: Vec<u16> = Vec::new();
                let mut i: usize = 0;
                while i < entries.len()
                    invariant
                        0 <= i <= entries@.len(),
                        keys_are_ports(entries@),
                        ports@ == key_ports(entries@.take(i as int)),
                    decreases entries@.len() - i,
                {
                    match parse_port(entries[i].0.as_str()) {
                        Some(port) => {
                            ports.push(port);
                        },
                        None => {
                            assert(port_number(entries@[i as int].0@).is_some());
                        },
                    }
                    i += 1;
                    assert(ports@ =~= key_ports(entries@.take(i as int)));
                }
                assert(entries@.take(entries@.len() as int) =~= entries@);
                self.ports = Some(ports);
            }
        }
        if let Some(range) = config.range {
            self.range = Some(range);
        }
        if let Some(resolver) = &config.resolver {
            self.resolver = Some(resolver.clone());
        }
        if let Some(ulimit) = config.ulimit {
            self.ulimit = Some(ulimit);
        }
        if let Some(exclude_ports) = &config.exclude_ports {
            self.exclude_ports = Some(clone_ports(exclude_ports));
        }
    }
}

/// What the caller is told of a batch size that was looked at.
#[derive(Debug, Clone, Copy, PartialEq, Eq, Structural)]
pub enum BatchAdvice {
    /// The limit of open files lies well below the batch size asked for:
    /// half the limit is taken.
    Halved,
    /// The limit lies below the batch size asked for, but is ample: the
    /// average batch size is taken.
    Averaged,
    /// The limit lies below the batch size asked for: the limit less a
    /// hundred is taken.
    Lowered,
    /// The limit allows the batch size asked for, and a larger one: the
    /// caller has not set the limit, so there is room.
    CouldBeRaised,
    /// The batch size is taken as it was asked for.
    Kept,
}

/// What is made of the batch size `wanted` under the limit `ulimit` of open
/// files; `limit_was_set` says whether the caller has asked for that limit.
pub open spec fn batch_advice(wanted: u16, ulimit: u64, limit_was_set: bool) -> BatchAdvice {
    if ulimit < wanted {
        if ulimit < AVERAGE_BATCH_SIZE {
            BatchAdvice::Halved
        } else if ulimit > DEFAULT_FILE_DESCRIPTORS_LIMIT {
            BatchAdvice::Averaged
        } else {
            BatchAdvice::Lowered
        }
    } else if !limit_was_set {
        BatchAdvice::CouldBeRaised
    } else {
        BatchAdvice::Kept
    }
}

/// The batch size that fits the limit `ulimit` of open files.
pub open spec fn fitting_batch_size(wanted: u16, ulimit: u64) -> int {
    if ulimit < wanted {
        if ulimit < AVERAGE_BATCH_SIZE {
            ulimit as int / 2
        } else if ulimit > DEFAULT_FILE_DESCRIPTORS_LIMIT {
            AVERAGE_BATCH_SIZE as int
        } else {
            ulimit - 100
        }
    } else {
        wanted as int
    }
}

/// What the caller is told of the batch size of `opts` under the limit
/// `ulimit` of open files.
pub fn advise_batch_size(opts: &Opts, ulimit: u64) -> (advice: BatchAdvice)
    ensures
        advice == batch_advice(opts.batch_size, ulimit, opts.ulimit.is_some()),
{
    let wanted: u64 = opts.batch_size as u64;
    if ulimit < wanted {
        if ulimit < AVERAGE_BATCH_SIZE {
            BatchAdvice::Halved
        } else if ulimit > DEFAULT_FILE_DESCRIPTORS_LIMIT {
            BatchAdvice::Averaged
        } else {
            BatchAdvice::Lowered
        }
    } else if opts.ulimit.is_none() {
        BatchAdvice::CouldBeRaised
    } else {
        BatchAdvice::Kept
    }
}

/// The batch size of a scan under the limit `ulimit` of open files. A
/// limit below the batch size asked for lowers it: to half the limit where
/// the limit is small, to the average batch size where it is ample, and to
/// the limit less a hundred in between.
pub fn infer_batch_size(opts: &Opts, ulimit: u64) -> (batch_size: u16)
    ensures
        batch_size == fitting_batch_size(opts.batch_size, ulimit),
        batch_size <= opts.batch_size,
{
    let mut batch_size: u64 = opts.batch_size as u64;
    if ulimit < batch_size {
        if ulimit < AVERAGE_BATCH_SIZE {
            batch_size = ulimit / 2;
        } else if ulimit > DEFAULT_FILE_DESCRIPTORS_LIMIT {
            batch_size = AVERAGE_BATCH_SIZE;
        } else {
            batch_size = ulimit - 100;
        }
    }
    batch_size as u16
}

} // verus!
