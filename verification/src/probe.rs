//! Detection: from the texts that a platform's sources gave to the
//! processor model. Each source is read by the caller and handed over as
//! text; a source that could not be read is handed over as `None`.

use crate::model::{empty_level, is_first_named, with_level, CacheInfo, LevelView, ProcessorInfo, ProcessorLevel};
use crate::text::{
    chars_equal, contains_chars, line_ranges, lines, occurs_in, parse_trimmed,
    parse_trimmed_usize, parse_unsigned, parse_usize_range, push_decimal, run_end, run_len,
    same_text, starts_with_at, string_of_range, strip_repeated, strip_repeated_at, to_chars,
    trim_range, trimmed, decimal,
};
use crate::units::{parse_size, parse_size_range};
use vstd::prelude::*;

verus! {

/// The text of an optional string.
pub open spec fn text_of(o: Option<&str>) -> Option<Seq<char>> {
    match o {
        Some(t) => Some(t@),
        None => None,
    }
}

/// The text of an optional owned string.
pub open spec fn owned_text(o: Option<String>) -> Option<Seq<char>> {
    match o {
        Some(t) => Some(t@),
        None => None,
    }
}

/// The number that a source's answer denotes, 0 where it denotes none.
pub open spec fn reading_value(t: Seq<char>) -> usize {
    match parse_trimmed(t) {
        Some(n) => n,
        None => 0,
    }
}

/// The number that a source's answer denotes, 0 where it denotes none.
pub fn read_value(t: &str) -> (n: usize)
    ensures
        n == reading_value(t@),
{
    match parse_trimmed_usize(t) {
        Some(n) => n,
        None => 0,
    }
}

/// The number that an optional answer denotes, 0 where there is no answer
/// or it denotes none.
pub open spec fn optional_value(o: Option<Seq<char>>) -> usize {
    match o {
        Some(t) => reading_value(t),
        None => 0,
    }
}

fn read_optional(o: &Option<String>) -> (n: usize)
    ensures
        n == optional_value(owned_text(*o)),
{
    match o {
        Some(t) => read_value(t.as_str()),
        None => 0,
    }
}

/// Whether the host is a Mac whose processor names itself as Apple's.
pub open spec fn names_apple(os: Seq<char>, identity: Option<Seq<char>>) -> bool {
    os == "macos"@ && identity is Some && occurs_in("Apple"@, identity->0)
}

/// The architecture label for the architecture that the host reports.
pub open spec fn architecture_label(raw: Seq<char>, apple: bool) -> Seq<char> {
    if raw == "x86"@ || raw == "x86_64"@ {
        "x86"@
    } else if raw == "aarch64"@ || raw == "arm"@ || raw == "arm64"@ {
        if apple {
            "Apple Silicon"@
        } else {
            "ARM"@
        }
    } else {
        "Unknown: "@ + raw
    }
}

/// The text between the first and the second colon of `line`, where it has
/// a colon.
pub open spec fn second_field(line: Seq<char>) -> Option<Seq<char>> {
    let a = run_len(line, ':');
    if a < line.len() {
        let rest = line.skip(a as int + 1);
        Some(rest.take(run_len(rest, ':') as int))
    } else {
        None
    }
}

/// The model name that a line of the processor table gives.
pub open spec fn linux_line_model(line: Seq<char>) -> Option<Seq<char>> {
    if "model name"@.is_prefix_of(line) {
        match second_field(line) {
            Some(f) => Some(trimmed(f)),
            None => None,
        }
    } else {
        None
    }
}

/// The model name that a line of the processor query gives.
pub open spec fn windows_line_model(line: Seq<char>) -> Option<Seq<char>> {
    if "Name="@.is_prefix_of(line) {
        Some(trimmed(strip_repeated(line, "Name="@)))
    } else {
        None
    }
}

/// The model name that a line gives on the operating system `os`.
pub open spec fn line_model(os: Seq<char>, line: Seq<char>) -> Option<Seq<char>> {
    if os == "linux"@ {
        linux_line_model(line)
    } else if os == "windows"@ {
        windows_line_model(line)
    } else {
        None
    }
}

/// The model name that the first of the first `n` lines to give one gives.
pub open spec fn first_model(os: Seq<char>, all: Seq<Seq<char>>, n: nat) -> Option<Seq<char>>
    decreases n,
{
    if n == 0 {
        None
    } else {
        match first_model(os, all, (n - 1) as nat) {
            Some(m) => Some(m),
            None => line_model(os, all[n - 1]),
        }
    }
}

/// The model name after detection. `identity` is what the identity source
/// of the operating system gave: on a Mac the brand string, elsewhere a
/// table of lines. Where nothing is found the name stays as it was.
pub open spec fn model_name_text(
    os: Seq<char>,
    identity: Option<Seq<char>>,
    before: Seq<char>,
) -> Seq<char> {
    match identity {
        None => before,
        Some(t) => if os == "macos"@ {
            trimmed(t)
        } else {
            match first_model(os, lines(t), lines(t).len()) {
                Some(m) => m,
                None => before,
            }
        },
    }
}

fn is_text(v: &Vec<char>, literal: &str) -> (r: bool)
    ensures
        r == (v@ == literal@),
{
    let p = to_chars(literal);
    chars_equal(v, &p)
}

fn linux_line_range(v: &Vec<char>, a: usize, b: usize) -> (r: Option<(usize, usize)>)
    requires
        a <= b <= v@.len(),
    ensures
        match r {
            Some(x) => x.0 <= x.1 <= v@.len() && linux_line_model(v@.subrange(a as int, b as int))
                == Some(v@.subrange(x.0 as int, x.1 as int)),
            None => linux_line_model(v@.subrange(a as int, b as int)) is None,
        },
{
    let ghost line = v@.subrange(a as int, b as int);
    let p = to_chars("model name");
    if !starts_with_at(v, a, b, &p) {
        return None;
    }
    let c: usize = run_end(v, a, b, ':');
    if c == b {
        return None;
    }
    let c2: usize = run_end(v, c + 1, b, ':');
    proof {
        let rest = line.skip(c - a + 1);
        assert(rest =~= v@.subrange(c + 1, b as int));
        assert(rest.take(c2 - (c + 1)) =~= v@.subrange(c + 1, c2 as int));
    }
    let (x, y) = trim_range(v, c + 1, c2);
    Some((x, y))
}

fn windows_line_range(v: &Vec<char>, a: usize, b: usize) -> (r: Option<(usize, usize)>)
    requires
        a <= b <= v@.len(),
    ensures
        match r {
            Some(x) => x.0 <= x.1 <= v@.len() && windows_line_model(
                v@.subrange(a as int, b as int),
            ) == Some(v@.subrange(x.0 as int, x.1 as int)),
            None => windows_line_model(v@.subrange(a as int, b as int)) is None,
        },
{
    let p = to_chars("Name=");
    if !starts_with_at(v, a, b, &p) {
        return None;
    }
    let s: usize = strip_repeated_at(v, a, b, &p);
    let (x, y) = trim_range(v, s, b);
    Some((x, y))
}

/// What the sources of a tier of an Apple processor gave.
#[derive(Debug, Clone)]
pub struct TierReadings {
    pub l1_instruction: String,
    pub l1_data: String,
    pub l2: String,
}

/// What the sources of an Apple processor gave: one entry for each tier,
/// and the size of the third-level cache, which the tiers share.
#[derive(Debug, Clone)]
pub struct AppleReadings {
    pub tiers: Vec<TierReadings>,
    pub l3: String,
}

/// What the sources of an Intel Mac gave.
#[derive(Debug, Clone)]
pub struct IntelMacReadings {
    pub l1_unified: Option<String>,
    pub l1_instruction: Option<String>,
    pub l1_data: Option<String>,
    pub l2: Option<String>,
    pub l3: Option<String>,
}

/// What the three attribute files of one cache index gave.
#[derive(Debug, Clone)]
pub struct CacheIndexReading {
    pub level: Option<String>,
    pub cache_type: Option<String>,
    pub size: Option<String>,
}

/// What the sources of a host gave. The caller fills in the part that
/// belongs to the host's strategy.
#[derive(Debug, Clone)]
pub struct HostReadings {
    pub apple: AppleReadings,
    pub intel: IntelMacReadings,
    pub linux: Vec<CacheIndexReading>,
    pub windows: Option<String>,
}

/// The way in which the caches of a host are detected.
#[derive(Debug, Clone, Copy, PartialEq, Eq, Structural)]
pub enum Strategy {
    AppleSilicon,
    IntelMac,
    Linux,
    Windows,
    Unsupported,
}

/// The strategy for an operating system and an architecture label.
pub open spec fn strategy_for(os: Seq<char>, architecture: Seq<char>) -> Strategy {
    if os == "macos"@ {
        if architecture == "Apple Silicon"@ {
            Strategy::AppleSilicon
        } else {
            Strategy::IntelMac
        }
    } else if os == "linux"@ {
        Strategy::Linux
    } else if os == "windows"@ {
        Strategy::Windows
    } else {
        Strategy::Unsupported
    }
}

/// Chooses the strategy for an operating system and an architecture label.
pub fn select_strategy(os: &str, architecture: &str) -> (s: Strategy)
    ensures
        s == strategy_for(os@, architecture@),
{
    if same_text(os, "macos") {
        if same_text(architecture, "Apple Silicon") {
            Strategy::AppleSilicon
        } else {
            Strategy::IntelMac
        }
    } else if same_text(os, "linux") {
        Strategy::Linux
    } else if same_text(os, "windows") {
        Strategy::Windows
    } else {
        Strategy::Unsupported
    }
}

/// The number of cache indices that are looked at.
pub const CACHE_INDEX_COUNT: usize = 10;

/// The number of tiers that the answer of the tier-count source denotes: 1
/// where it denotes none.
pub open spec fn tier_count(t: Seq<char>) -> usize {
    match parse_trimmed(t) {
        Some(n) => n,
        None => 1,
    }
}

/// The number of tiers to ask for.
pub fn apple_tier_count(t: &str) -> (n: usize)
    ensures
        n == tier_count(t@),
{
    match parse_trimmed_usize(t) {
        Some(n) => n,
        None => 1,
    }
}

/// The name of tier `i`.
pub open spec fn tier_name(i: nat) -> Seq<char> {
    if i == 0 {
        "Performance Cores"@
    } else {
        "Efficiency Cores (Level "@ + decimal(i) + ")"@
    }
}

/// The name of tier `i`.
pub fn apple_tier_name(i: usize) -> (name: String)
    ensures
        name@ == tier_name(i as nat),
{
    if i == 0 {
        String::from_str("Performance Cores")
    } else {
        let mut name = String::from_str("Efficiency Cores (Level ");
        push_decimal(&mut name, i as u128);
        name.append(")");
        name
    }
}

/// The level of tier `i`. Only the first tier takes the shared third-level
/// size.
pub open spec fn apple_level(i: nat, tier: TierReadings, l3: Seq<char>) -> LevelView {
    LevelView {
        name: tier_name(i),
        l1: CacheInfo {
            instruction_size: reading_value(tier.l1_instruction@),
            data_size: reading_value(tier.l1_data@),
            unified_size: 0,
        },
        l2: reading_value(tier.l2@),
        l3: if i == 0 {
            reading_value(l3)
        } else {
            0
        },
    }
}

/// The levels after the first `n` tiers were stored, one after another.
pub open spec fn apple_levels(
    levels: Seq<LevelView>,
    tiers: Seq<TierReadings>,
    l3: Seq<char>,
    n: nat,
) -> Seq<LevelView>
    decreases n,
{
    if n == 0 {
        levels
    } else {
        with_level(
            apple_levels(levels, tiers, l3, (n - 1) as nat),
            apple_level((n - 1) as nat, tiers[n - 1], l3),
        )
    }
}

/// The one level of an Intel Mac. The unified first-level size is taken
/// where its source answered with more than white space; only otherwise the
/// instruction and data sizes are.
pub open spec fn intel_level(r: IntelMacReadings) -> LevelView {
    let unified = owned_text(r.l1_unified);
    let l1 = if unified is Some && trimmed(unified->0).len() > 0 {
        CacheInfo { instruction_size: 0, data_size: 0, unified_size: reading_value(unified->0) }
    } else {
        CacheInfo {
            instruction_size: optional_value(owned_text(r.l1_instruction)),
            data_size: optional_value(owned_text(r.l1_data)),
            unified_size: 0,
        }
    };
    LevelView {
        name: "Default"@,
        l1,
        l2: optional_value(owned_text(r.l2)),
        l3: optional_value(owned_text(r.l3)),
    }
}

/// The level after one cache index was looked at. An index of which a file
/// could not be read changes nothing. At level 1 the size goes where the
/// type says, at levels 2 and 3 to that level; any other level or type
/// changes nothing.
pub open spec fn apply_index(level: LevelView, r: CacheIndexReading) -> LevelView {
    if r.level is None || r.cache_type is None || r.size is None {
        level
    } else {
        let depth = reading_value(r.level->0@);
        let kind = trimmed(r.cache_type->0@);
        let size = parse_size(trimmed(r.size->0@)) as usize;
        if depth == 1 {
            if kind == "Data"@ {
                LevelView { l1: CacheInfo { data_size: size, ..level.l1 }, ..level }
            } else if kind == "Instruction"@ {
                LevelView { l1: CacheInfo { instruction_size: size, ..level.l1 }, ..level }
            } else if kind == "Unified"@ {
                LevelView { l1: CacheInfo { unified_size: size, ..level.l1 }, ..level }
            } else {
                level
            }
        } else if depth == 2 {
            LevelView { l2: size, ..level }
        } else if depth == 3 {
            LevelView { l3: size, ..level }
        } else {
            level
        }
    }
}

/// The level after the first `n` cache indices were looked at in order, a
/// later one overwriting what an earlier one set.
pub open spec fn linux_scan(level: LevelView, readings: Seq<CacheIndexReading>, n: nat) -> LevelView
    decreases n,
{
    if n == 0 {
        level
    } else {
        apply_index(linux_scan(level, readings, (n - 1) as nat), readings[n - 1])
    }
}

/// The number of cache indices that are looked at of `len` given ones.
pub open spec fn scanned(len: nat) -> nat {
    if len < 10 {
        len
    } else {
        10
    }
}

/// The one level of a Linux host.
pub open spec fn linux_level(readings: Seq<CacheIndexReading>) -> LevelView {
    linux_scan(empty_level("Default"@), readings, scanned(readings.len()))
}

/// The byte count of a line that gives kibibytes behind `prefix`, where the
/// rest of the line is a number and the byte count fits the machine word.
pub open spec fn kib_value(line: Seq<char>, prefix: Seq<char>) -> Option<usize> {
    match parse_unsigned(trimmed(strip_repeated(line, prefix))) {
        Some(n) => if n * 1024 <= usize::MAX {
            Some((n * 1024) as usize)
        } else {
            None
        },
        None => None,
    }
}

/// The level after one line of the cache query was read.
pub open spec fn apply_windows_line(level: LevelView, line: Seq<char>) -> LevelView {
    if "L1CacheSize="@.is_prefix_of(line) {
        match kib_value(line, "L1CacheSize="@) {
            Some(b) => LevelView { l1: CacheInfo { unified_size: b, ..level.l1 }, ..level },
            None => level,
        }
    } else if "L2CacheSize="@.is_prefix_of(line) {
        match kib_value(line, "L2CacheSize="@) {
            Some(b) => LevelView { l2: b, ..level },
            None => level,
        }
    } else if "L3CacheSize="@.is_prefix_of(line) {
        match kib_value(line, "L3CacheSize="@) {
            Some(b) => LevelView { l3: b, ..level },
            None => level,
        }
    } else {
        level
    }
}

/// The level after the first `n` lines were read in order.
pub open spec fn windows_scan(level: LevelView, all: Seq<Seq<char>>, n: nat) -> LevelView
    decreases n,
{
    if n == 0 {
        level
    } else {
        apply_windows_line(windows_scan(level, all, (n - 1) as nat), all[n - 1])
    }
}

/// The one level of a Windows host.
pub open spec fn windows_level(output: Option<Seq<char>>) -> LevelView {
    match output {
        Some(t) => windows_scan(empty_level("Default"@), lines(t), lines(t).len()),
        None => empty_level("Default"@),
    }
}

/// The notice for an operating system that has no strategy.
pub open spec fn unsupported_notice(os: Seq<char>) -> Seq<char> {
    "Unsupported operating system: "@ + os
}

/// The levels after cache detection on the operating system `os`.
pub open spec fn detected_levels(
    os: Seq<char>,
    architecture: Seq<char>,
    levels: Seq<LevelView>,
    readings: HostReadings,
) -> Seq<LevelView> {
    match strategy_for(os, architecture) {
        Strategy::AppleSilicon => apple_levels(
            levels,
            readings.apple.tiers@,
            readings.apple.l3@,
            readings.apple.tiers@.len(),
        ),
        Strategy::IntelMac => with_level(levels, intel_level(readings.intel)),
        Strategy::Linux => with_level(levels, linux_level(readings.linux@)),
        Strategy::Windows => with_level(levels, windows_level(owned_text(readings.windows))),
        Strategy::Unsupported => levels,
    }
}

fn kib_range(v: &Vec<char>, a: usize, b: usize, p: &Vec<char>) -> (r: Option<usize>)
    requires
        a <= b <= v@.len(),
    ensures
        r == kib_value(v@.subrange(a as int, b as int), p@),
{
    let s: usize = strip_repeated_at(v, a, b, p);
    let (x, y) = trim_range(v, s, b);
    match parse_usize_range(v, x, y) {
        Some(n) => {
            if n <= usize::MAX / 1024 {
                Some(n * 1024)
            } else {
                None
            }
        },
        None => None,
    }
}

fn apply_line(level: &mut ProcessorLevel, v: &Vec<char>, a: usize, b: usize)
    requires
        a <= b <= v@.len(),
    ensures
        final(level)@ == apply_windows_line(old(level)@, v@.subrange(a as int, b as int)),
{
    let p1 = to_chars("L1CacheSize=");
    let p2 = to_chars("L2CacheSize=");
    let p3 = to_chars("L3CacheSize=");
    if starts_with_at(v, a, b, &p1) {
        match kib_range(v, a, b, &p1) {
            Some(n) => {
                level.l1_cache.unified_size = n;
            },
            None => {},
        }
    } else if starts_with_at(v, a, b, &p2) {
        match kib_range(v, a, b, &p2) {
            Some(n) => {
                level.l2_cache = n;
            },
            None => {},
        }
    } else if starts_with_at(v, a, b, &p3) {
        match kib_range(v, a, b, &p3) {
            Some(n) => {
                level.l3_cache = n;
            },
            None => {},
        }
    }
}

fn apply_reading(level: &mut ProcessorLevel, r: &CacheIndexReading)
    ensures
        final(level)@ == apply_index(old(level)@, *r),
{
    let depth: usize = match &r.level {
        Some(t) => read_value(t.as_str()),
        None => {
            return ;
        },
    };
    let kind: Vec<char> = match &r.cache_type {
        Some(t) => to_chars(t.as_str()),
        None => {
            return ;
        },
    };
    let size_chars: Vec<char> = match &r.size {
        Some(t) => to_chars(t.as_str()),
        None => {
            return ;
        },
    };
    assert(kind@.subrange(0, kind@.len() as int) =~= kind@);
    assert(size_chars@.subrange(0, size_chars@.len() as int) =~= size_chars@);
    let (ka, kb) = trim_range(&kind, 0, kind.len());
    let (sa, sb) = trim_range(&size_chars, 0, size_chars.len());
    let size: usize = parse_size_range(&size_chars, sa, sb);
    let kind_text = string_of_range(&kind, ka, kb);
    if depth == 1 {
        if same_text(kind_text.as_str(), "Data") {
            level.l1_cache.data_size = size;
        } else if same_text(kind_text.as_str(), "Instruction") {
            level.l1_cache.instruction_size = size;
        } else if same_text(kind_text.as_str(), "Unified") {
            level.l1_cache.unified_size = size;
        }
    } else if depth == 2 {
        level.l2_cache = size;
    } else if depth == 3 {
        level.l3_cache = size;
    }
}

impl ProcessorInfo {
    /// Replaces the architecture that the host reports by its label, and
    /// detects the model name.
    pub fn detect_architecture(&mut self, os: &str, identity: Option<&str>)
        ensures
            final(self)@.architecture == architecture_label(
                old(self)@.architecture,
                names_apple(os@, text_of(identity)),
            ),
            final(self)@.model_name == model_name_text(
                os@,
                text_of(identity),
                old(self)@.model_name,
            ),
            final(self).performance_levels == old(self).performance_levels,
    {
        let raw = to_chars(self.architecture.as_str());
        if is_text(&raw, "x86") || is_text(&raw, "x86_64") {
            self.architecture = String::from_str("x86");
        } else if is_text(&raw, "aarch64") || is_text(&raw, "arm") || is_text(&raw, "arm64") {
            self.architecture = self.detect_arm_type(os, identity);
        } else {
            let mut label = String::from_str("Unknown: ");
            label.append(self.architecture.as_str());
            self.architecture = label;
        }
        self.detect_model_name(os, identity);
    }

    /// The label of an ARM processor.
    pub fn detect_arm_type(&self, os: &str, identity: Option<&str>) -> (label: String)
        ensures
            label@ == if names_apple(os@, text_of(identity)) {
                "Apple Silicon"@
            } else {
                "ARM"@
            },
    {
        if same_text(os, "macos") {
            match identity {
                Some(t) => {
                    let v = to_chars(t);
                    let p = to_chars("Apple");
                    if contains_chars(&v, &p) {
                        return String::from_str("Apple Silicon");
                    }
                },
                None => {},
            }
        }
        String::from_str("ARM")
    }

    /// Detects the model name from what the identity source gave.
    pub fn detect_model_name(&mut self, os: &str, identity: Option<&str>)
        ensures
            final(self)@.model_name == model_name_text(
                os@,
                text_of(identity),
                old(self)@.model_name,
            ),
            final(self).architecture == old(self).architecture,
            final(self).performance_levels == old(self).performance_levels,
    {
        let t = match identity {
            Some(t) => t,
            None => {
                return ;
            },
        };
        let v = to_chars(t);
        if same_text(os, "macos") {
            assert(v@.subrange(0, v@.len() as int) =~= v@);
            let (a, b) = trim_range(&v, 0, v.len());
            self.model_name = string_of_range(&v, a, b);
            return ;
        }
        let linux = same_text(os, "linux");
        let windows = same_text(os, "windows");
        let ranges = line_ranges(&v);
        let n: usize = ranges.len();
        let mut i: usize = 0;
        while i < n
            invariant
                n == ranges@.len(),
                n == lines(v@).len(),
                i <= n,
                os@ != "macos"@,
                text_of(identity) == Some(v@),
                linux == (os@ == "linux"@),
                windows == (os@ == "windows"@),
                *self == *old(self),
                forall|j: int|
                    0 <= j < n ==> (#[trigger] ranges@[j]).0 <= ranges@[j].1 <= v@.len()
                        && v@.subrange(ranges@[j].0 as int, ranges@[j].1 as int) == lines(v@)[j],
                first_model(os@, lines(v@), i as nat) is None,
            decreases n - i,
        {
            let (a, b) = ranges[i];
            let found = if linux {
                linux_line_range(&v, a, b)
            } else if windows {
                windows_line_range(&v, a, b)
            } else {
                None
            };
            assert(first_model(os@, lines(v@), (i + 1) as nat) == line_model(
                os@,
                lines(v@)[i as int],
            ));
            match found {
                Some(x) => {
                    self.model_name = string_of_range(&v, x.0, x.1);
                    proof {
                        lemma_first_model_stays(os@, lines(v@), (i + 1) as nat, n as nat);
                    }
                    return ;
                },
                None => {},
            }
            i += 1;
        }
    }

    /// Stores the levels of an Apple processor, one for each tier.
    pub fn collect_apple_silicon_cache_info(&mut self, readings: &AppleReadings)
        ensures
            final(self)@.levels == apple_levels(
                old(self)@.levels,
                readings.tiers@,
                readings.l3@,
                readings.tiers@.len(),
            ),
            final(self).architecture == old(self).architecture,
            final(self).model_name == old(self).model_name,
            old(self).wf() ==> final(self).wf(),
    {
        let n: usize = readings.tiers.len();
        let mut i: usize = 0;
        while i < n
            invariant
                n == readings.tiers@.len(),
                i <= n,
                self@.levels == apple_levels(
                    old(self)@.levels,
                    readings.tiers@,
                    readings.l3@,
                    i as nat,
                ),
                self.architecture == old(self).architecture,
                self.model_name == old(self).model_name,
                old(self).wf() ==> self.wf(),
            decreases n - i,
        {
            let tier = &readings.tiers[i];
            let level = ProcessorLevel {
                level_name: apple_tier_name(i),
                l1_cache: CacheInfo {
                    instruction_size: read_value(tier.l1_instruction.as_str()),
                    data_size: read_value(tier.l1_data.as_str()),
                    unified_size: 0,
                },
                l2_cache: read_value(tier.l2.as_str()),
                l3_cache: if i == 0 {
                    read_value(readings.l3.as_str())
                } else {
                    0
                },
            };
            self.insert_level(level);
            i += 1;
        }
    }

    /// Stores the one level of an Intel Mac.
    pub fn collect_intel_mac_cache_info(&mut self, readings: &IntelMacReadings)
        ensures
            final(self)@.levels == with_level(old(self)@.levels, intel_level(*readings)),
            final(self).architecture == old(self).architecture,
            final(self).model_name == old(self).model_name,
            old(self).wf() ==> final(self).wf(),
    {
        let mut level = ProcessorLevel::new("Default");
        let mut unified_given: bool = false;
        match &readings.l1_unified {
            Some(t) => {
                let v = to_chars(t.as_str());
                assert(v@.subrange(0, v@.len() as int) =~= v@);
                let (a, b) = trim_range(&v, 0, v.len());
                if a < b {
                    unified_given = true;
                    level.l1_cache.unified_size = read_value(t.as_str());
                }
            },
            None => {},
        }
        if !unified_given {
            level.l1_cache.instruction_size = read_optional(&readings.l1_instruction);
            level.l1_cache.data_size = read_optional(&readings.l1_data);
        }
        level.l2_cache = read_optional(&readings.l2);
        level.l3_cache = read_optional(&readings.l3);
        self.insert_level(level);
    }

    /// Stores the levels of a Mac: those of an Apple processor where the
    /// architecture label says so, else that of an Intel Mac.
    pub fn collect_macos_cache_info(&mut self, apple: &AppleReadings, intel: &IntelMacReadings)
        ensures
            final(self)@.levels == if old(self)@.architecture == "Apple Silicon"@ {
                apple_levels(old(self)@.levels, apple.tiers@, apple.l3@, apple.tiers@.len())
            } else {
                with_level(old(self)@.levels, intel_level(*intel))
            },
            final(self).architecture == old(self).architecture,
            final(self).model_name == old(self).model_name,
            old(self).wf() ==> final(self).wf(),
    {
        if same_text(self.architecture.as_str(), "Apple Silicon") {
            self.collect_apple_silicon_cache_info(apple);
        } else {
            self.collect_intel_mac_cache_info(intel);
        }
    }

    /// Stores the one level of a Linux host.
    pub fn collect_linux_cache_info(&mut self, readings: &Vec<CacheIndexReading>)
        ensures
            final(self)@.levels == with_level(old(self)@.levels, linux_level(readings@)),
            final(self).architecture == old(self).architecture,
            final(self).model_name == old(self).model_name,
            old(self).wf() ==> final(self).wf(),
    {
        let mut level = ProcessorLevel::new("Default");
        let n: usize = if readings.len() < CACHE_INDEX_COUNT {
            readings.len()
        } else {
            CACHE_INDEX_COUNT
        };
        let mut i: usize = 0;
        while i < n
            invariant
                n == scanned(readings@.len()),
                i <= n,
                level@ == linux_scan(empty_level("Default"@), readings@, i as nat),
            decreases n - i,
        {
            apply_reading(&mut level, &readings[i]);
            i += 1;
        }
        self.insert_level(level);
    }

    /// Stores the one level of a Windows host.
    pub fn collect_windows_cache_info(&mut self, output: &Option<String>)
        ensures
            final(self)@.levels == with_level(
                old(self)@.levels,
                windows_level(owned_text(*output)),
            ),
            final(self).architecture == old(self).architecture,
            final(self).model_name == old(self).model_name,
            old(self).wf() ==> final(self).wf(),
    {
        let mut level = ProcessorLevel::new("Default");
        match output {
            Some(t) => {
                let v = to_chars(t.as_str());
                let ranges = line_ranges(&v);
                let n: usize = ranges.len();
                let mut i: usize = 0;
                while i < n
                    invariant
                        n == ranges@.len(),
                        n == lines(v@).len(),
                        i <= n,
                        forall|j: int|
                            0 <= j < n ==> (#[trigger] ranges@[j]).0 <= ranges@[j].1 <= v@.len()
                                && v@.subrange(ranges@[j].0 as int, ranges@[j].1 as int) == lines(
                                v@,
                            )[j],
                        level@ == windows_scan(empty_level("Default"@), lines(v@), i as nat),
                    decreases n - i,
                {
                    let (a, b) = ranges[i];
                    apply_line(&mut level, &v, a, b);
                    i += 1;
                }
            },
            None => {},
        }
        self.insert_level(level);
    }

    /// Detects the caches by the strategy of the operating system and the
    /// architecture label. Where there is no strategy, the levels stay as
    /// they are and a notice is returned.
    pub fn collect_cache_info(&mut self, os: &str, readings: &HostReadings) -> (notice: Option<
        String,
    >)
        ensures
            final(self)@.levels == detected_levels(
                os@,
                old(self)@.architecture,
                old(self)@.levels,
                *readings,
            ),
            final(self).architecture == old(self).architecture,
            final(self).model_name == old(self).model_name,
            old(self).wf() ==> final(self).wf(),
            strategy_for(os@, old(self)@.architecture) == Strategy::Unsupported ==> notice is Some
                && notice->0@ == unsupported_notice(os@),
            strategy_for(os@, old(self)@.architecture) != Strategy::Unsupported ==> notice is None,
    {
        if same_text(os, "macos") {
            self.collect_macos_cache_info(&readings.apple, &readings.intel);
            None
        } else if same_text(os, "linux") {
            self.collect_linux_cache_info(&readings.linux);
            None
        } else if same_text(os, "windows") {
            self.collect_windows_cache_info(&readings.windows);
            None
        } else {
            let mut notice = String::from_str("Unsupported operating system: ");
            notice.append(os);
            Some(notice)
        }
    }
}

/// Once a line has given a model name, later lines do not change it.
pub proof fn lemma_first_model_stays(os: Seq<char>, all: Seq<Seq<char>>, k: nat, n: nat)
    requires
        k <= n,
        first_model(os, all, k) is Some,
    ensures
        first_model(os, all, n) == first_model(os, all, k),
    decreases n,
{
    if n > k {
        lemma_first_model_stays(os, all, k, (n - 1) as nat);
    }
}

/// An answer that denotes no number counts as 0.
pub proof fn lemma_malformed_reading(t: Seq<char>)
    requires
        parse_trimmed(t) is None,
    ensures
        reading_value(t) == 0,
{
}

/// Each size of a tier comes from its own answer alone: whatever the other
/// answers hold, a size is the number that its answer denotes, or 0.
pub proof fn lemma_tier_fields_independent(i: nat, tier: TierReadings, l3: Seq<char>)
    ensures
        apple_level(i, tier, l3).l1.instruction_size == reading_value(tier.l1_instruction@),
        apple_level(i, tier, l3).l1.data_size == reading_value(tier.l1_data@),
        apple_level(i, tier, l3).l2 == reading_value(tier.l2@),
        parse_trimmed(tier.l1_instruction@) is None ==> apple_level(
            i,
            tier,
            l3,
        ).l1.instruction_size == 0,
        parse_trimmed(tier.l1_data@) is None ==> apple_level(i, tier, l3).l1.data_size == 0,
        parse_trimmed(tier.l2@) is None ==> apple_level(i, tier, l3).l2 == 0,
{
}

/// A cache index whose size text does not begin with a digit sets the size
/// it speaks of to 0 and leaves the other sizes of the level as they were.
pub proof fn lemma_malformed_index_size(level: LevelView, r: CacheIndexReading)
    requires
        r.level is Some,
        r.cache_type is Some,
        r.size is Some,
        trimmed(r.size->0@).len() == 0 || !crate::text::is_digit(trimmed(r.size->0@)[0]),
    ensures
        apply_index(level, r).name == level.name,
        apply_index(level, r).l2 == level.l2 || apply_index(level, r).l2 == 0,
        apply_index(level, r).l3 == level.l3 || apply_index(level, r).l3 == 0,
        reading_value(r.level->0@) == 2 ==> apply_index(level, r) == (LevelView {
            l2: 0,
            ..level
        }),
        reading_value(r.level->0@) == 3 ==> apply_index(level, r) == (LevelView {
            l3: 0,
            ..level
        }),
{
    crate::units::lemma_parse_size_without_digits(trimmed(r.size->0@));
}

/// Different tiers have different names.
pub proof fn lemma_tier_names_distinct(i: nat, j: nat)
    requires
        i != j,
    ensures
        tier_name(i) != tier_name(j),
{
    reveal_strlit("Performance Cores");
    reveal_strlit("Efficiency Cores (Level ");
    reveal_strlit(")");
    let a = "Efficiency Cores (Level "@;
    let c = ")"@;
    crate::text::lemma_decimal_value(i);
    crate::text::lemma_decimal_value(j);
    let di = decimal(i);
    let dj = decimal(j);
    if i == 0 {
        assert((a + dj + c)[0] == 'E');
    } else if j == 0 {
        assert((a + di + c)[0] == 'E');
    } else {
        if a + di + c == a + dj + c {
            assert((a + di + c).len() == a.len() + di.len() + c.len());
            assert((a + dj + c).len() == a.len() + dj.len() + c.len());
            assert forall|k: int| 0 <= k < di.len() implies di[k] == dj[k] by {
                assert((a + di + c)[a.len() + k] == di[k]);
                assert((a + dj + c)[a.len() + k] == dj[k]);
            }
            assert(di =~= dj);
        }
    }
}

/// Stored into a model without levels, the first `n` tiers give `n` levels
/// in the order of the tiers, each under the name of its tier.
pub proof fn lemma_apple_levels_fresh(tiers: Seq<TierReadings>, l3: Seq<char>, n: nat)
    requires
        n <= tiers.len(),
    ensures
        apple_levels(Seq::empty(), tiers, l3, n).len() == n,
        forall|i: int|
            0 <= i < n ==> #[trigger] apple_levels(Seq::empty(), tiers, l3, n)[i] == apple_level(
                i as nat,
                tiers[i],
                l3,
            ),
    decreases n,
{
    if n > 0 {
        let m = (n - 1) as nat;
        lemma_apple_levels_fresh(tiers, l3, m);
        let before = apple_levels(Seq::empty(), tiers, l3, m);
        let level = apple_level(m, tiers[m as int], l3);
        assert forall|k: int| !is_first_named(before, level.name, k) by {
            if 0 <= k < m {
                lemma_tier_names_distinct(k as nat, m);
                assert(before[k].name == tier_name(k as nat));
            }
        }
        assert(apple_levels(Seq::empty(), tiers, l3, n) == before.push(level));
    }
}

} // verus!
