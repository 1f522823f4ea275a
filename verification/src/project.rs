//! The project builder: referenced asset paths, the ordered clip timeline
//! with derived start times, and the host-visible variable table.

use vstd::prelude::*;

use crate::values::{
    find_binding, lookup_binding, names_unique, set_binding, write_binding, Binding, Value,
    ValueModel,
};

verus! {

/// The length a clip gets when none is specified; no override path is
/// currently defined.
pub const DEFAULT_CLIP_LENGTH: i64 = 5;

/// One timeline entry: a non-owning reference (by path) to an asset, with a
/// start time and a duration.
#[derive(Debug)]
pub struct Clip {
    pub start_time: i64,
    pub length: i64,
    pub path: String,
}

/// The mathematical form of a `Clip`.
pub struct ClipModel {
    pub start_time: int,
    pub length: int,
    pub path: Seq<char>,
}

impl View for Clip {
    type V = ClipModel;

    open spec fn view(&self) -> ClipModel {
        ClipModel { start_time: self.start_time as int, length: self.length as int, path: self.path@ }
    }
}

impl DeepView for Clip {
    type V = ClipModel;

    open spec fn deep_view(&self) -> ClipModel {
        self@
    }
}

impl Clone for Clip {
    fn clone(&self) -> (r: Clip)
        ensures
            r@ == self@,
    {
        Clip { start_time: self.start_time, length: self.length, path: self.path.clone() }
    }
}

/// A clip starts at or after time zero and takes time.
pub open spec fn clip_wf(c: ClipModel) -> bool {
    c.start_time >= 0 && c.length > 0
}

impl Clip {
    /// A clip at `start_time` with the default length.
    pub fn new(start_time: i64, path: String) -> (c: Clip)
        requires
            start_time >= 0,
        ensures
            c@ == (ClipModel {
                start_time: start_time as int,
                length: DEFAULT_CLIP_LENGTH as int,
                path: path@,
            }),
            clip_wf(c@),
    {
        Clip { start_time, length: DEFAULT_CLIP_LENGTH, path }
    }
}

/// Where the next appended clip starts: at zero on an empty timeline, else
/// right where the last clip ends.
pub open spec fn next_start_time(t: Seq<ClipModel>) -> int {
    if t.len() == 0 {
        0
    } else {
        t.last().start_time + t.last().length
    }
}

/// The timeline is gapless and overlap-free: the first clip starts at zero
/// and every later clip starts where its predecessor ends.
pub open spec fn timeline_consecutive(t: Seq<ClipModel>) -> bool {
    &&& t.len() > 0 ==> t[0].start_time == 0
    &&& forall|i: int|
        1 <= i < t.len() ==> (#[trigger] t[i]).start_time == t[i - 1].start_time + t[i - 1].length
}

/// Every clip of the timeline is well formed and the timeline is gapless.
pub open spec fn timeline_wf(t: Seq<ClipModel>) -> bool {
    &&& timeline_consecutive(t)
    &&& forall|i: int| 0 <= i < t.len() ==> clip_wf(#[trigger] t[i])
}

/// The total length of the clips of `t`.
pub open spec fn sum_lengths(t: Seq<ClipModel>) -> int
    decreases t.len(),
{
    if t.len() == 0 {
        0
    } else {
        sum_lengths(t.drop_last()) + t.last().length
    }
}

proof fn lemma_start_time_is_prefix_sum(t: Seq<ClipModel>, i: int)
    requires
        timeline_consecutive(t),
        0 <= i < t.len(),
    ensures
        t[i].start_time == sum_lengths(t.take(i)),
    decreases i,
{
    if i == 0 {
        assert(t.take(0) =~= Seq::<ClipModel>::empty());
    } else {
        lemma_start_time_is_prefix_sum(t, i - 1);
        assert(t.take(i).drop_last() =~= t.take(i - 1));
        assert(t.take(i).last() == t[i - 1]);
        assert(sum_lengths(t.take(i)) == sum_lengths(t.take(i - 1)) + t[i - 1].length);
    }
}

/// On a gapless timeline every clip starts at the sum of the lengths of the
/// clips before it, and the first clip starts at zero. This is exactly the
/// shape left by any number of sequential appends.
pub proof fn lemma_start_times_are_prefix_sums(t: Seq<ClipModel>)
    requires
        timeline_consecutive(t),
    ensures
        forall|i: int| 0 <= i < t.len() ==> (#[trigger] t[i]).start_time == sum_lengths(t.take(i)),
        t.len() > 0 ==> t[0].start_time == 0,
{
    assert forall|i: int| 0 <= i < t.len() implies (#[trigger] t[i]).start_time == sum_lengths(
        t.take(i),
    ) by {
        lemma_start_time_is_prefix_sum(t, i);
    }
}

/// Appends a clip for `path` to the timeline: it starts where the last clip
/// ends (at zero on an empty timeline) and has the default length. The same
/// path may be appended twice and yields two independent clips.
pub fn add_clip(timeline: &mut Vec<Clip>, path: String)
    requires
        0 <= next_start_time(old(timeline).deep_view()),
        next_start_time(old(timeline).deep_view()) <= i64::MAX,
    ensures
        final(timeline).deep_view() == old(timeline).deep_view().push(
            ClipModel {
                start_time: next_start_time(old(timeline).deep_view()),
                length: DEFAULT_CLIP_LENGTH as int,
                path: path@,
            },
        ),
        timeline_wf(old(timeline).deep_view()) ==> timeline_wf(final(timeline).deep_view()),
{
    let ghost old_t = timeline.deep_view();
    let ghost path_chars = path@;
    let mut new_start_time: i64 = 0;
    if let Some(last_clip) = timeline.last() {
        new_start_time = last_clip.start_time + last_clip.length;
    }
    timeline.push(Clip::new(new_start_time, path));
    proof {
        let t = timeline.deep_view();
        let c = ClipModel {
            start_time: next_start_time(old_t),
            length: DEFAULT_CLIP_LENGTH as int,
            path: path_chars,
        };
        assert(t =~= old_t.push(c));
        if timeline_wf(old_t) {
            assert forall|i: int| 0 <= i < t.len() implies clip_wf(#[trigger] t[i]) by {
                if i < old_t.len() {
                    assert(t[i] == old_t[i]);
                }
            }
            assert forall|i: int|
                1 <= i < t.len() implies (#[trigger] t[i]).start_time == t[i - 1].start_time + t[i
                - 1].length by {
                if i < old_t.len() {
                    assert(t[i] == old_t[i] && t[i - 1] == old_t[i - 1]);
                }
            }
        }
    }
}

/// The complete data produced by script execution: asset references, the
/// ordered clip timeline, and the named variable bindings.
#[derive(Debug)]
pub struct Project {
    pub paths: Vec<String>,
    pub timeline: Vec<Clip>,
    pub variables: Vec<Binding>,
}

/// The mathematical form of a `Project`.
pub struct ProjectModel {
    pub paths: Seq<Seq<char>>,
    pub timeline: Seq<ClipModel>,
    pub variables: Seq<(Seq<char>, ValueModel)>,
}

impl View for Project {
    type V = ProjectModel;

    open spec fn view(&self) -> ProjectModel {
        ProjectModel {
            paths: self.paths.deep_view(),
            timeline: self.timeline.deep_view(),
            variables: self.variables.deep_view(),
        }
    }
}

impl DeepView for Project {
    type V = ProjectModel;

    open spec fn deep_view(&self) -> ProjectModel {
        self@
    }
}

/// The empty project model.
pub open spec fn empty_project() -> ProjectModel {
    ProjectModel { paths: Seq::empty(), timeline: Seq::empty(), variables: Seq::empty() }
}

/// A project's invariant: a well-formed timeline and unique variable names.
pub open spec fn project_wf(p: ProjectModel) -> bool {
    &&& timeline_wf(p.timeline)
    &&& names_unique(p.variables)
}

/// `ps` holds `path`.
pub open spec fn has_path(ps: Seq<Seq<char>>, path: Seq<char>) -> bool {
    exists|i: int| 0 <= i < ps.len() && ps[i] == path
}

/// `ps` with `path` registered: unchanged when already present, else
/// appended.
pub open spec fn register_path(ps: Seq<Seq<char>>, path: Seq<char>) -> Seq<Seq<char>> {
    if has_path(ps, path) {
        ps
    } else {
        ps.push(path)
    }
}

impl Project {
    /// A fresh, empty project.
    pub fn new() -> (p: Project)
        ensures
            p@ == empty_project(),
            project_wf(p@),
    {
        let p = Project { paths: Vec::new(), timeline: Vec::new(), variables: Vec::new() };
        proof {
            assert(p@.paths =~= empty_project().paths);
            assert(p@.timeline =~= empty_project().timeline);
            assert(p@.variables =~= empty_project().variables);
        }
        p
    }

    /// Appends a clip for `path` to the timeline (see `add_clip`); the asset
    /// references and the variables are untouched.
    pub fn append_clip(&mut self, path: String)
        requires
            0 <= next_start_time(old(self)@.timeline),
            next_start_time(old(self)@.timeline) <= i64::MAX,
        ensures
            final(self)@.timeline == old(self)@.timeline.push(
                ClipModel {
                    start_time: next_start_time(old(self)@.timeline),
                    length: DEFAULT_CLIP_LENGTH as int,
                    path: path@,
                },
            ),
            final(self)@.paths == old(self)@.paths,
            final(self)@.variables == old(self)@.variables,
            project_wf(old(self)@) ==> project_wf(final(self)@),
    {
        add_clip(&mut self.timeline, path);
    }

    /// Registers `path` among the asset references: appended when new,
    /// left alone when already present. Never an error, never a clip.
    pub fn register_path(&mut self, path: String)
        ensures
            final(self)@.paths == register_path(old(self)@.paths, path@),
            final(self)@.timeline == old(self)@.timeline,
            final(self)@.variables == old(self)@.variables,
            project_wf(old(self)@) ==> project_wf(final(self)@),
    {
        let ghost old_ps = self@.paths;
        let ghost path_chars = path@;
        let present = self.contains_path(path.as_str());
        if !present {
            self.paths.push(path);
            assert(self@.paths =~= old_ps.push(path_chars));
        }
    }

    /// True when `path` is already among the asset references.
    pub fn contains_path(&self, path: &str) -> (r: bool)
        ensures
            r == has_path(self@.paths, path@),
    {
        let mut i: usize = 0;
        while i < self.paths.len()
            invariant
                i <= self.paths.len(),
                forall|j: int| 0 <= j < i ==> self@.paths[j] != path@,
            decreases self.paths.len() - i,
        {
            if crate::values::str_eq(self.paths[i].as_str(), path) {
                assert(self@.paths[i as int] == path@);
                return true;
            }
            i += 1;
        }
        false
    }

    /// Binds `value` under `name` in the variable table; last write wins.
    pub fn set_variable(&mut self, name: String, value: Value)
        ensures
            final(self)@.variables == set_binding(old(self)@.variables, name@, value@),
            final(self)@.paths == old(self)@.paths,
            final(self)@.timeline == old(self)@.timeline,
            project_wf(old(self)@) ==> project_wf(final(self)@),
    {
        write_binding(&mut self.variables, name, value);
    }

    /// The value bound under `name`, or `None` when the name is unbound.
    pub fn get_variable(&self, name: &str) -> (r: Option<&Value>)
        ensures
            match r {
                Some(v) => find_binding(self@.variables, name@) == Some(v@),
                None => find_binding(self@.variables, name@) is None,
            },
    {
        lookup_binding(&self.variables, name)
    }
}

} // verus!
