//! The filter-and-project stage: keep the senior-level records and project
//! each to `(work_year, job_title, rounded_salary_usd)`.

use vstd::prelude::*;
use vstd::string::StringExecFns;
use crate::records::SalaryRecord;
use crate::records::SalaryRecordView;

verus! {

/// A projected row: the year, the title, and the USD salary rounded to the
/// nearest integer (ties away from zero).
#[derive(Debug, Clone, PartialEq)]
pub struct ProjectedTuple {
    pub work_year: i32,
    pub job_title: String,
    pub rounded_salary_usd: i64,
}

/// The mathematical image of a projected row.
#[verifier::ext_equal]
pub struct ProjectedTupleView {
    pub work_year: int,
    pub job_title: Seq<char>,
    pub rounded_salary_usd: int,
}

impl View for ProjectedTuple {
    type V = ProjectedTupleView;

    open spec fn view(&self) -> ProjectedTupleView {
        ProjectedTupleView {
            work_year: self.work_year as int,
            job_title: self.job_title@,
            rounded_salary_usd: self.rounded_salary_usd as int,
        }
    }
}

impl DeepView for ProjectedTuple {
    type V = ProjectedTupleView;

    open spec fn deep_view(&self) -> ProjectedTupleView {
        self.view()
    }
}

/// The filter: the record's experience level is exactly `"SE"`.
pub open spec fn spec_is_senior(r: SalaryRecordView) -> bool {
    r.experience_level == "SE"@
}

/// The projection of one record.
pub open spec fn spec_project(r: SalaryRecordView) -> ProjectedTupleView {
    ProjectedTupleView {
        work_year: r.work_year,
        job_title: r.job_title,
        rounded_salary_usd: r.salary_in_usd.spec_round_half_away(),
    }
}

/// The projections of the senior records, in input order.
pub open spec fn spec_filter_project(rs: Seq<SalaryRecordView>) -> Seq<ProjectedTupleView>
    decreases rs.len(),
{
    if rs.len() == 0 {
        Seq::empty()
    } else if spec_is_senior(rs.last()) {
        spec_filter_project(rs.drop_last()).push(spec_project(rs.last()))
    } else {
        spec_filter_project(rs.drop_last())
    }
}

/// Keeps the records whose `experience_level` is exactly `"SE"` and projects
/// each to its tuple, in input order.  A pure function of the records alone:
/// the result is fully determined by `records.deep_view()`.
pub fn filter_and_project(records: &Vec<SalaryRecord>) -> (r: Vec<ProjectedTuple>)
    requires
        forall|i: int|
            0 <= i < records.deep_view().len() ==> (#[trigger] records.deep_view()[i]).wf(),
    ensures
        r.deep_view() == spec_filter_project(records.deep_view()),
{
    let ghost dv = records.deep_view();
    proof {
        assert(forall|j: int| 0 <= j < records@.len() ==> #[trigger] dv[j] == records@[j]@);
        assert(dv.take(0) =~= Seq::<SalaryRecordView>::empty());
    }
    let se: String = String::from_str("SE");
    let mut out: Vec<ProjectedTuple> = Vec::new();
    let mut i: usize = 0;
    while i < records.len()
        invariant
            i <= records.len(),
            dv == records.deep_view(),
            dv.len() == records@.len(),
            se@ == "SE"@,
            forall|j: int| 0 <= j < records@.len() ==> #[trigger] dv[j] == records@[j]@,
            forall|j: int| 0 <= j < dv.len() ==> (#[trigger] dv[j]).wf(),
            out.deep_view() == spec_filter_project(dv.take(i as int)),
        decreases records@.len() - i,
    {
        proof {
            assert(dv.take(i + 1).drop_last() =~= dv.take(i as int));
            assert(dv.take(i + 1).last() == dv[i as int]);
        }
        if records[i].experience_level.eq(&se) {
            let t = ProjectedTuple {
                work_year: records[i].work_year,
                job_title: records[i].job_title.clone(),
                rounded_salary_usd: records[i].salary_in_usd.round_half_away(),
            };
            let ghost out_dv = out.deep_view();
            out.push(t);
            proof {
                assert(t@ =~= spec_project(dv[i as int]));
                assert(out.deep_view() =~= out_dv.push(t@));
            }
        }
        i += 1;
    }
    proof {
        assert(dv.take(records@.len() as int) =~= dv);
    }
    out
}

/// Filtering is a pure function of the input sequence: two runs over the same
/// records come to the same output, there being no hidden state.
pub proof fn lemma_filter_project_deterministic(
    rs: Seq<SalaryRecordView>,
    a: Seq<ProjectedTupleView>,
    b: Seq<ProjectedTupleView>,
)
    requires
        a == spec_filter_project(rs),
        b == spec_filter_project(rs),
    ensures
        a == b,
{
}

/// The output never outgrows the input.
pub proof fn lemma_filter_project_len(rs: Seq<SalaryRecordView>)
    ensures
        spec_filter_project(rs).len() <= rs.len(),
    decreases rs.len(),
{
    if rs.len() > 0 {
        lemma_filter_project_len(rs.drop_last());
    }
}

/// Every output tuple is the projection of some senior input record, so no
/// record with a different experience level ever reaches the output.
pub proof fn lemma_filter_project_provenance(rs: Seq<SalaryRecordView>, i: int)
    requires
        0 <= i < spec_filter_project(rs).len(),
    ensures
        exists|j: int|
            0 <= j < rs.len() && spec_is_senior(rs[j]) && spec_filter_project(rs)[i]
                == spec_project(#[trigger] rs[j]),
    decreases rs.len(),
{
    if rs.len() > 0 {
        let prev = spec_filter_project(rs.drop_last());
        if i < prev.len() {
            lemma_filter_project_provenance(rs.drop_last(), i);
            let j = choose|j: int|
                0 <= j < rs.drop_last().len() && spec_is_senior(rs.drop_last()[j]) && prev[i]
                    == spec_project(#[trigger] rs.drop_last()[j]);
            assert(rs.drop_last()[j] == rs[j]);
            assert(spec_filter_project(rs)[i] == spec_project(rs[j]));
        } else {
            assert(spec_is_senior(rs.last()));
            let j = rs.len() - 1;
            assert(rs[j] == rs.last());
            assert(spec_filter_project(rs)[i] == spec_project(rs[j]));
        }
    }
}

/// The filter is order-preserving and stable: what comes out for a prefix of
/// the input is exactly a prefix of what comes out for the whole input.
pub proof fn lemma_filter_project_prefix(rs: Seq<SalaryRecordView>, n: int)
    requires
        0 <= n <= rs.len(),
    ensures
        spec_filter_project(rs.take(n)).len() <= spec_filter_project(rs).len(),
        spec_filter_project(rs.take(n)) == spec_filter_project(rs).take(
            spec_filter_project(rs.take(n)).len() as int,
        ),
    decreases rs.len() - n,
{
    if n == rs.len() {
        assert(rs.take(n) =~= rs);
        assert(spec_filter_project(rs).take(spec_filter_project(rs).len() as int)
            =~= spec_filter_project(rs));
    } else {
        lemma_filter_project_prefix(rs, n + 1);
        assert(rs.take(n + 1).drop_last() =~= rs.take(n));
        assert(rs.take(n + 1).last() == rs[n]);
        let fp_n = spec_filter_project(rs.take(n));
        let fp_n1 = spec_filter_project(rs.take(n + 1));
        if spec_is_senior(rs[n]) {
            assert(fp_n1 == fp_n.push(spec_project(rs[n])));
            assert(fp_n =~= fp_n1.drop_last());
            assert(fp_n =~= spec_filter_project(rs).take(fp_n.len() as int));
        } else {
            assert(fp_n1 == fp_n);
        }
    }
}

} // verus!
