//! torch and tensorflow pinned to the build that suits the machine.

use vstd::prelude::*;

use crate::engine::flow::{Pin, PinView};
use crate::engine::gpu::{Accelerator, AcceleratorView};
use crate::engine::platform::Os;
use crate::engine::project::{requirement_views, Requirement, RequirementView};
use crate::engine::{Finding, FindingView};
use crate::matrix::frameworks::{framework_of, Framework, FrameworkTable, FrameworkTableView};
use crate::matrix::nvidia::{DriverRowView, DriverTable};
use crate::matrix::solve::{
    opt_table, solve_spec, solve_with_tables, FrameworkSolve, FrameworkSolveView,
};
use crate::text;

verus! {

/// One framework to pin: what is said of it first, and the release it is to have.
#[derive(Debug, PartialEq, Eq)]
pub struct Target {
    pub note: Option<String>,
    pub pin: Pin,
}

/// A target, mathematically.
#[verifier::ext_equal]
pub struct TargetView {
    pub note: Option<Seq<char>>,
    pub pin: PinView,
}

impl View for Target {
    type V = TargetView;

    open spec fn view(&self) -> TargetView {
        TargetView { note: text::opt_text(self.note), pin: self.pin@ }
    }
}

pub open spec fn target_views(v: Seq<Target>) -> Seq<TargetView> {
    Seq::new(v.len(), |i: int| v[i]@)
}

/// The release a solve pins a framework to.
pub open spec fn pin_of(name: Seq<char>, solved: FrameworkSolveView) -> Option<PinView> {
    match solved.resolved_version {
        Some(v) => Some(PinView { spec: name + "=="@ + v, index_url: solved.index_url }),
        None => None,
    }
}

pub open spec fn opt_pin(o: Option<Pin>) -> Option<PinView> {
    match o {
        Some(p) => Some(p@),
        None => None,
    }
}

/// Pin a framework to the release it was solved against.
pub fn pin(name: &str, solved: &FrameworkSolve) -> (r: Option<Pin>)
    ensures
        opt_pin(r) == pin_of(name@, solved@),
{
    match &solved.resolved_version {
        Some(v) => {
            let mut spec = name.to_string();
            spec.append("==");
            spec.append(v.as_str());
            Some(Pin { spec, index_url: text::clone_opt(&solved.index_url) })
        },
        None => None,
    }
}

/// What is said of a framework before it is pinned.
pub open spec fn finding_note(f: FindingView) -> Seq<char> {
    f.title + "\n  "@ + f.detail + "\n"@
}

/// What is said of a framework before it is pinned.
pub fn finding_text(f: &Finding) -> (r: String)
    ensures
        r@ == finding_note(f@),
{
    let mut s = f.title.clone();
    s.append("\n  ");
    s.append(f.detail.as_str());
    s.append("\n");
    s
}

/// The target a solve gives.
pub open spec fn solved_target(name: Seq<char>, solved: FrameworkSolveView) -> Option<TargetView> {
    match pin_of(name, solved) {
        Some(pin) => Some(
            TargetView {
                note: match solved.finding {
                    Some(f) => Some(finding_note(f)),
                    None => None,
                },
                pin,
            },
        ),
        None => None,
    }
}

/// The target of a requirement, if it is for a framework that can be solved.
pub open spec fn target_of(
    t: FrameworkTableView,
    rows: Option<Seq<DriverRowView>>,
    a: AcceleratorView,
    os: Os,
) -> spec_fn(RequirementView) -> Option<TargetView> {
    |r: RequirementView|
        match framework_of(r.name) {
            Some(f) => match solve_spec(t, rows, a, os, f, Some(r)) {
                Some(solved) => solved_target(r.name, solved),
                None => None,
            },
            None => None,
        }
}

fn target(name: &str, solved: &FrameworkSolve) -> (r: Option<Target>)
    ensures
        match r {
            Some(t) => solved_target(name@, solved@) == Some(t@),
            None => solved_target(name@, solved@) is None,
        },
{
    match pin(name, solved) {
        Some(pin) => {
            let note = match &solved.finding {
                Some(f) => Some(finding_text(f)),
                None => None,
            };
            Some(Target { note, pin })
        },
        None => None,
    }
}

/// The frameworks among the dependencies, each with the release and the index
/// that suit the machine. Without a framework table there are none.
pub fn targets(
    packages: &Vec<Requirement>,
    table: Option<&FrameworkTable>,
    drivers: Option<&DriverTable>,
    accelerator: &Accelerator,
    os: Os,
) -> (r: Vec<Target>)
    ensures
        target_views(r@) == (match table {
            Some(t) => requirement_views(packages@).filter_map(
                target_of(t@, opt_table(drivers), accelerator@, os),
            ),
            None => seq![],
        }),
{
    let ghost views = requirement_views(packages@);
    let mut out: Vec<Target> = Vec::new();
    let table = match table {
        Some(table) => table,
        None => {
            proof {
                assert(target_views(out@) =~= seq![]);
            }
            return out;
        },
    };
    let ghost f = target_of(table@, opt_table(drivers), accelerator@, os);
    let mut i: usize = 0;
    proof {
        assert(target_views(out@) =~= views.take(0).filter_map(f));
    }
    while i < packages.len()
        invariant
            i <= packages@.len(),
            views == requirement_views(packages@),
            f == target_of(table@, opt_table(drivers), accelerator@, os),
            target_views(out@) == views.take(i as int).filter_map(f),
        decreases packages@.len() - i,
    {
        proof {
            views.lemma_filter_map_take_succ(f, i as int);
            assert(views[i as int] == packages@[i as int]@);
        }
        let req = &packages[i];
        if let Some(framework) = Framework::from_package_name(req.name.as_str()) {
            let solved = solve_with_tables(framework, Some(req), table, drivers, accelerator, os);
            if let Some(solved) = solved {
                if let Some(found) = target(req.name.as_str(), &solved) {
                    proof {
                        assert(target_views(out@.push(found)) =~= target_views(out@).push(found@));
                    }
                    out.push(found);
                }
            }
        }
        i += 1;
    }
    proof {
        assert(views.take(i as int) =~= views);
    }
    out
}

/// The pins of a list of targets.
pub open spec fn pins_of(targets: Seq<TargetView>) -> Seq<PinView> {
    Seq::new(targets.len(), |i: int| targets[i].pin)
}

/// A framework that can be solved is pinned, whatever the machine.
pub proof fn every_solve_is_pinned(
    t: FrameworkTableView,
    rows: Option<Seq<DriverRowView>>,
    a: AcceleratorView,
    os: Os,
    r: RequirementView,
)
    ensures
        target_of(t, rows, a, os)(r) is Some <==> (framework_of(r.name) is Some && solve_spec(
            t,
            rows,
            a,
            os,
            framework_of(r.name)->0,
            Some(r),
        ) is Some),
{
}

/// A pin names the release that was solved against, and comes from the index that was
/// chosen; what was found is told with it.
pub proof fn pins_name_the_solved_release(name: Seq<char>, solved: FrameworkSolveView, v: Seq<char>)
    requires
        solved.resolved_version == Some(v),
    ensures
        solved_target(name, solved) is Some,
        solved_target(name, solved)->0.pin.spec == name + "=="@ + v,
        solved_target(name, solved)->0.pin.index_url == solved.index_url,
        solved_target(name, solved)->0.note is Some <==> solved.finding is Some,
{
}

} // verus!
