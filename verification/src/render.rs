//! The report: the processor model as lines of text.

use crate::model::{CacheInfo, InfoView, LevelView, ProcessorInfo, ProcessorLevel};
use crate::text::push_range;
use crate::units::{format_size, size_text};
use vstd::prelude::*;

verus! {

/// The texts of a sequence of strings.
pub open spec fn texts(lines: Seq<String>) -> Seq<Seq<char>> {
    Seq::new(lines.len(), |i: int| lines[i]@)
}

/// `n` times the character `c`.
pub open spec fn repeated(c: char, n: nat) -> Seq<char> {
    Seq::new(n, |i: int| c)
}

/// The lines for a first-level cache: the unified size where one was
/// detected; otherwise the instruction size and the data size, each only
/// where it was detected.
pub open spec fn l1_lines(cache: CacheInfo) -> Seq<Seq<char>> {
    if cache.unified_size > 0 {
        seq!["L1 Cache (Unified): "@ + size_text(cache.unified_size as nat)]
    } else {
        (if cache.instruction_size > 0 {
            seq!["L1 Instruction Cache: "@ + size_text(cache.instruction_size as nat)]
        } else {
            Seq::<Seq<char>>::empty()
        }) + (if cache.data_size > 0 {
            seq!["L1 Data Cache: "@ + size_text(cache.data_size as nat)]
        } else {
            Seq::<Seq<char>>::empty()
        })
    }
}

/// The lines for one level: a blank line, the name, a rule of hyphens as
/// long as the name's encoding in bytes, the first-level lines, the second
/// level always, and the third level where it was detected.
pub open spec fn level_lines(level: LevelView) -> Seq<Seq<char>> {
    seq![
        Seq::<char>::empty(),
        level.name,
        repeated('-', vstd::utf8::encode_utf8(level.name).len()),
    ] + l1_lines(level.l1) + seq!["L2 Cache: "@ + size_text(level.l2 as nat)] + (if level.l3 > 0 {
        seq!["L3 Cache: "@ + size_text(level.l3 as nat)]
    } else {
        Seq::<Seq<char>>::empty()
    })
}

/// The lines of the first `n` levels, in their order.
pub open spec fn levels_lines(levels: Seq<LevelView>, n: nat) -> Seq<Seq<char>>
    decreases n,
{
    if n == 0 {
        Seq::<Seq<char>>::empty()
    } else {
        levels_lines(levels, (n - 1) as nat) + level_lines(levels[n - 1])
    }
}

/// The lines of the whole report. `raw_architecture` is the architecture as
/// the host reports it.
pub open spec fn report_lines(info: InfoView, raw_architecture: Seq<char>) -> Seq<Seq<char>> {
    seq!["Architecture: "@ + info.architecture + " - "@ + raw_architecture] + (if info.model_name.len()
        > 0 {
        seq!["CPU Model: "@ + info.model_name]
    } else {
        Seq::<Seq<char>>::empty()
    }) + seq![Seq::<char>::empty(), "Cache Information:"@, "=================="@] + levels_lines(
        info.levels,
        info.levels.len(),
    )
}

/// The first `n` lines, each after the first preceded by a line feed.
pub open spec fn joined(lines: Seq<Seq<char>>, n: nat) -> Seq<char>
    decreases n,
{
    if n == 0 {
        Seq::<char>::empty()
    } else if n == 1 {
        lines[0]
    } else {
        joined(lines, (n - 1) as nat) + seq!['\n'] + lines[n - 1]
    }
}

fn labelled(label: &str, size: usize) -> (line: String)
    ensures
        line@ == label@ + size_text(size as nat),
{
    let mut line = String::from_str(label);
    let text = format_size(size);
    line.append(text.as_str());
    line
}

impl CacheInfo {
    /// The lines that report this cache.
    pub fn format(&self) -> (lines: Vec<String>)
        ensures
            texts(lines@) == l1_lines(*self),
    {
        let mut result: Vec<String> = Vec::new();
        if self.unified_size > 0 {
            result.push(labelled("L1 Cache (Unified): ", self.unified_size));
        } else {
            if self.instruction_size > 0 {
                result.push(labelled("L1 Instruction Cache: ", self.instruction_size));
            }
            if self.data_size > 0 {
                result.push(labelled("L1 Data Cache: ", self.data_size));
            }
        }
        assert(texts(result@) =~= l1_lines(*self));
        result
    }
}

impl ProcessorLevel {
    /// The lines that report this level.
    pub fn format(&self) -> (lines: Vec<String>)
        ensures
            texts(lines@) == level_lines(self@),
    {
        let mut result: Vec<String> = Vec::new();
        result.push(String::new());
        result.push(self.level_name.clone());
        let n: usize = self.level_name.as_str().as_bytes().len();
        let mut rule = String::new();
        let mut i: usize = 0;
        while i < n
            invariant
                i <= n,
                rule@ == repeated('-', i as nat),
            decreases n - i,
        {
            rule.push('-');
            i += 1;
            assert(rule@ =~= repeated('-', i as nat));
        }
        result.push(rule);
        assert(texts(result@) =~= seq![
            Seq::<char>::empty(),
            self@.name,
            repeated('-', vstd::utf8::encode_utf8(self@.name).len()),
        ]);
        let mut l1 = self.l1_cache.format();
        let ghost head = texts(result@);
        let ghost l1_texts = texts(l1@);
        result.append(&mut l1);
        assert(texts(result@) =~= head + l1_texts);
        result.push(labelled("L2 Cache: ", self.l2_cache));
        assert(texts(result@) =~= head + l1_texts + seq![
            "L2 Cache: "@ + size_text(self.l2_cache as nat),
        ]);
        if self.l3_cache > 0 {
            result.push(labelled("L3 Cache: ", self.l3_cache));
        }
        assert(texts(result@) =~= level_lines(self@));
        result
    }
}

impl ProcessorInfo {
    /// The lines of the report, the levels in the order in which they are
    /// stored.
    pub fn render(&self, raw_architecture: &str) -> (lines: Vec<String>)
        ensures
            texts(lines@) == report_lines(self@, raw_architecture@),
    {
        let mut result: Vec<String> = Vec::new();
        let mut first = String::from_str("Architecture: ");
        first.append(self.architecture.as_str());
        first.append(" - ");
        first.append(raw_architecture);
        result.push(first);
        if !self.model_name.as_str().is_empty() {
            let mut second = String::from_str("CPU Model: ");
            second.append(self.model_name.as_str());
            result.push(second);
        }
        result.push(String::new());
        result.push(String::from_str("Cache Information:"));
        result.push(String::from_str("=================="));
        let ghost head = texts(result@);
        let n: usize = self.performance_levels.len();
        let mut i: usize = 0;
        while i < n
            invariant
                n == self.performance_levels@.len(),
                i <= n,
                texts(result@) == head + levels_lines(self@.levels, i as nat),
            decreases n - i,
        {
            let mut part = self.performance_levels[i].format();
            let ghost before = texts(result@);
            let ghost part_texts = texts(part@);
            result.append(&mut part);
            assert(texts(result@) =~= before + part_texts);
            assert(self@.levels[i as int] == self.performance_levels@[i as int]@);
            i += 1;
            assert(texts(result@) =~= head + levels_lines(self@.levels, i as nat));
        }
        assert(texts(result@) =~= report_lines(self@, raw_architecture@));
        result
    }

    /// The report as one text, its lines separated by line feeds.
    pub fn display(&self, raw_architecture: &str) -> (report: String)
        ensures
            report@ == joined(
                report_lines(self@, raw_architecture@),
                report_lines(self@, raw_architecture@).len(),
            ),
    {
        let lines = self.render(raw_architecture);
        let mut out = String::new();
        let n: usize = lines.len();
        let mut i: usize = 0;
        while i < n
            invariant
                n == lines@.len(),
                i <= n,
                out@ == joined(texts(lines@), i as nat),
            decreases n - i,
        {
            if i > 0 {
                out.push('\n');
            }
            out.append(lines[i].as_str());
            i += 1;
            assert(out@ =~= joined(texts(lines@), i as nat));
        }
        out
    }
}

/// A cache whose instruction size was not detected has no line for it,
/// whatever else was detected.
pub proof fn lemma_no_instruction_line(cache: CacheInfo, i: int)
    requires
        cache.instruction_size == 0,
        0 <= i < l1_lines(cache).len(),
    ensures
        !"L1 Instruction Cache: "@.is_prefix_of(l1_lines(cache)[i]),
{
    reveal_strlit("L1 Instruction Cache: ");
    reveal_strlit("L1 Cache (Unified): ");
    reveal_strlit("L1 Data Cache: ");
    let p = "L1 Instruction Cache: "@;
    let line = l1_lines(cache)[i];
    assert(line[3] != 'I');
    if p.is_prefix_of(line) {
        assert(line.subrange(0, p.len() as int)[3] == p[3]);
    }
}

/// The line for the second level is always there, behind the lines of the
/// first level; where the size was not detected it says so.
pub proof fn lemma_second_level_line(level: LevelView)
    ensures
        level_lines(level)[3 + l1_lines(level.l1).len() as int] == "L2 Cache: "@ + size_text(
            level.l2 as nat,
        ),
        level.l2 == 0 ==> level_lines(level).contains("L2 Cache: Not detected"@),
{
    reveal_strlit("L2 Cache: ");
    reveal_strlit("Not detected");
    reveal_strlit("L2 Cache: Not detected");
    let k = 3 + l1_lines(level.l1).len() as int;
    if level.l2 == 0 {
        assert("L2 Cache: "@ + size_text(0) =~= "L2 Cache: Not detected"@);
        assert(level_lines(level)[k] == "L2 Cache: Not detected"@);
    }
}

} // verus!
