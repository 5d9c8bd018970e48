//! The uniform processor model: an architecture label, a model name, and
//! named performance levels with their cache sizes.

use crate::text::same_text;
use vstd::prelude::*;

verus! {

/// The sizes of a first-level cache in bytes. Zero stands for a size that
/// was not detected.
#[derive(Debug, Clone, Copy, PartialEq, Eq, Structural)]
pub struct CacheInfo {
    pub instruction_size: usize,
    pub data_size: usize,
    pub unified_size: usize,
}

impl CacheInfo {
    /// A cache of which nothing was detected.
    pub open spec fn unknown() -> CacheInfo {
        CacheInfo { instruction_size: 0, data_size: 0, unified_size: 0 }
    }
}

impl Default for CacheInfo {
    fn default() -> (r: CacheInfo)
        ensures
            r == CacheInfo::unknown(),
    {
        CacheInfo { instruction_size: 0, data_size: 0, unified_size: 0 }
    }
}

/// One tier of cores with the caches that serve it.
#[derive(Debug, Clone)]
pub struct ProcessorLevel {
    pub level_name: String,
    pub l1_cache: CacheInfo,
    pub l2_cache: usize,
    pub l3_cache: usize,
}

/// What a performance level holds, as plain values.
pub struct LevelView {
    pub name: Seq<char>,
    pub l1: CacheInfo,
    pub l2: usize,
    pub l3: usize,
}

impl View for ProcessorLevel {
    type V = LevelView;

    open spec fn view(&self) -> LevelView {
        LevelView {
            name: self.level_name@,
            l1: self.l1_cache,
            l2: self.l2_cache,
            l3: self.l3_cache,
        }
    }
}

/// The level called `name` of which nothing was detected.
pub open spec fn empty_level(name: Seq<char>) -> LevelView {
    LevelView { name, l1: CacheInfo::unknown(), l2: 0, l3: 0 }
}

impl ProcessorLevel {
    /// A level called `name` with every size undetected.
    pub fn new(name: &str) -> (r: ProcessorLevel)
        ensures
            r@ == empty_level(name@),
    {
        ProcessorLevel {
            level_name: String::from_str(name),
            l1_cache: CacheInfo { instruction_size: 0, data_size: 0, unified_size: 0 },
            l2_cache: 0,
            l3_cache: 0,
        }
    }
}

/// The views of a sequence of levels.
pub open spec fn level_views(levels: Seq<ProcessorLevel>) -> Seq<LevelView> {
    Seq::new(levels.len(), |i: int| levels[i]@)
}

/// No two levels have the same name.
pub open spec fn distinct_names(levels: Seq<LevelView>) -> bool {
    forall|i: int, j: int|
        0 <= i < j < levels.len() ==> (#[trigger] levels[i]).name != (#[trigger] levels[j]).name
}

/// `i` is the place of the first level called `name`.
pub open spec fn is_first_named(levels: Seq<LevelView>, name: Seq<char>, i: int) -> bool {
    &&& 0 <= i < levels.len()
    &&& levels[i].name == name
    &&& forall|j: int| 0 <= j < i ==> (#[trigger] levels[j]).name != name
}

/// The levels after `level` was stored under its name: it takes the place
/// of the first level of that name, or comes last where there is none.
pub open spec fn with_level(levels: Seq<LevelView>, level: LevelView) -> Seq<LevelView> {
    if exists|i: int| is_first_named(levels, level.name, i) {
        levels.update(choose|i: int| is_first_named(levels, level.name, i), level)
    } else {
        levels.push(level)
    }
}

/// Where some level is called `name`, one of them is the first.
pub proof fn lemma_first_named_exists(levels: Seq<LevelView>, name: Seq<char>, i: int)
    requires
        0 <= i < levels.len(),
        levels[i].name == name,
    ensures
        exists|k: int| is_first_named(levels, name, k),
    decreases i,
{
    if exists|j: int| 0 <= j < i && (#[trigger] levels[j]).name == name {
        let j = choose|j: int| 0 <= j < i && (#[trigger] levels[j]).name == name;
        lemma_first_named_exists(levels, name, j);
    } else {
        assert(is_first_named(levels, name, i));
    }
}

/// Storing a level keeps the names distinct.
pub proof fn lemma_with_level_distinct(levels: Seq<LevelView>, level: LevelView)
    requires
        distinct_names(levels),
    ensures
        distinct_names(with_level(levels, level)),
{
    let after = with_level(levels, level);
    if exists|i: int| is_first_named(levels, level.name, i) {
        let k = choose|i: int| is_first_named(levels, level.name, i);
        assert forall|i: int, j: int| 0 <= i < j < after.len() implies (#[trigger] after[i]).name
            != (#[trigger] after[j]).name by {
            assert(after[i].name == levels[i].name);
            assert(after[j].name == levels[j].name);
        }
    } else {
        assert forall|i: int, j: int| 0 <= i < j < after.len() implies (#[trigger] after[i]).name
            != (#[trigger] after[j]).name by {
            if j == levels.len() {
                if levels[i].name == level.name {
                    lemma_first_named_exists(levels, level.name, i);
                }
            } else {
                assert(after[i].name == levels[i].name);
                assert(after[j].name == levels[j].name);
            }
        }
    }
}

/// A level that was stored is the one that its name finds.
pub proof fn lemma_with_level_found(levels: Seq<LevelView>, level: LevelView)
    ensures
        exists|i: int|
            is_first_named(with_level(levels, level), level.name, i) && with_level(
                levels,
                level,
            )[i] == level,
{
    let after = with_level(levels, level);
    if exists|i: int| is_first_named(levels, level.name, i) {
        let k = choose|i: int| is_first_named(levels, level.name, i);
        assert forall|j: int| 0 <= j < k implies (#[trigger] after[j]).name != level.name by {
            assert(levels[j].name != level.name);
        }
        assert(is_first_named(after, level.name, k) && after[k] == level);
    } else {
        let k = levels.len() as int;
        assert forall|j: int| 0 <= j < k implies (#[trigger] after[j]).name != level.name by {
            if levels[j].name == level.name {
                lemma_first_named_exists(levels, level.name, j);
            }
        }
        assert(is_first_named(after, level.name, k) && after[k] == level);
    }
}

/// The processor of a host.
#[derive(Debug)]
pub struct ProcessorInfo {
    pub architecture: String,
    pub model_name: String,
    pub performance_levels: Vec<ProcessorLevel>,
}

/// What a processor model holds, as plain values.
pub struct InfoView {
    pub architecture: Seq<char>,
    pub model_name: Seq<char>,
    pub levels: Seq<LevelView>,
}

impl View for ProcessorInfo {
    type V = InfoView;

    open spec fn view(&self) -> InfoView {
        InfoView {
            architecture: self.architecture@,
            model_name: self.model_name@,
            levels: level_views(self.performance_levels@),
        }
    }
}

impl ProcessorInfo {
    /// The names of the levels are distinct.
    pub open spec fn wf(&self) -> bool {
        distinct_names(self@.levels)
    }

    /// A model that holds the architecture as the host reports it, no model
    /// name and no level.
    pub fn new(raw_architecture: &str) -> (r: ProcessorInfo)
        ensures
            r@.architecture == raw_architecture@,
            r@.model_name == Seq::<char>::empty(),
            r@.levels == Seq::<LevelView>::empty(),
            r.wf(),
    {
        let r = ProcessorInfo {
            architecture: String::from_str(raw_architecture),
            model_name: String::new(),
            performance_levels: Vec::new(),
        };
        assert(r@.levels =~= Seq::<LevelView>::empty());
        r
    }

    /// Stores `level` under its name.
    pub fn insert_level(&mut self, level: ProcessorLevel)
        ensures
            final(self)@.levels == with_level(old(self)@.levels, level@),
            final(self).architecture == old(self).architecture,
            final(self).model_name == old(self).model_name,
            old(self).wf() ==> final(self).wf(),
    {
        let ghost before = self@.levels;
        let n: usize = self.performance_levels.len();
        let mut i: usize = 0;
        while i < n
            invariant
                n == self.performance_levels@.len(),
                i <= n,
                *self == *old(self),
                before == level_views(self.performance_levels@),
                forall|j: int| 0 <= j < i ==> (#[trigger] before[j]).name != level@.name,
            decreases n - i,
        {
            if self.performance_levels[i].level_name == level.level_name {
                proof {
                    assert(is_first_named(before, level@.name, i as int));
                    let k = choose|k: int| is_first_named(before, level@.name, k);
                    assert(k == i) by {
                        if k < i {
                            assert(before[k].name != level@.name);
                        }
                    }
                }
                self.performance_levels.set(i, level);
                assert(self@.levels =~= with_level(before, level@));
                proof {
                    lemma_with_level_distinct_if(before, level@);
                }
                return ;
            }
            i += 1;
        }
        proof {
            assert forall|k: int| !is_first_named(before, level@.name, k) by {
                if 0 <= k < before.len() {
                    assert(before[k].name != level@.name);
                }
            }
        }
        self.performance_levels.push(level);
        assert(self@.levels =~= with_level(before, level@));
        proof {
            lemma_with_level_distinct_if(before, level@);
        }
    }

    /// The level called `name`, if there is one.
    pub fn level(&self, name: &str) -> (r: Option<&ProcessorLevel>)
        ensures
            match r {
                Some(l) => exists|i: int| is_first_named(self@.levels, name@, i) && l@ == self@.levels[i],
                None => forall|i: int| 0 <= i < self@.levels.len() ==> (#[trigger] self@.levels[i]).name != name@,
            },
    {
        let n: usize = self.performance_levels.len();
        let mut i: usize = 0;
        while i < n
            invariant
                n == self.performance_levels@.len(),
                i <= n,
                forall|j: int| 0 <= j < i ==> (#[trigger] self@.levels[j]).name != name@,
            decreases n - i,
        {
            if same_text(self.performance_levels[i].level_name.as_str(), name) {
                assert(is_first_named(self@.levels, name@, i as int));
                return Some(&self.performance_levels[i]);
            }
            i += 1;
        }
        None
    }
}

proof fn lemma_with_level_distinct_if(levels: Seq<LevelView>, level: LevelView)
    ensures
        distinct_names(levels) ==> distinct_names(with_level(levels, level)),
{
    if distinct_names(levels) {
        lemma_with_level_distinct(levels, level);
    }
}

} // verus!
