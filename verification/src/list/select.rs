//! Multi-condition selection: a vectorized case-when.

use vstd::prelude::*;

use crate::elem::Elem;
use crate::list::{has_none, UList};
use crate::UListError;

verus! {

/// The value position `j` takes: the choice of the first condition that is
/// true at `j`, or the default when none is.
pub open spec fn select_at<M>(
    conds: Seq<Seq<Option<bool>>>,
    choices: Seq<M>,
    dflt: M,
    j: int,
) -> M
    decreases conds.len(),
{
    if conds.len() == 0 {
        dflt
    } else if conds[0][j] == Some(true) {
        choices[0]
    } else {
        select_at(conds.drop_first(), choices.drop_first(), dflt, j)
    }
}

proof fn lemma_select_at_hit<M>(
    conds: Seq<Seq<Option<bool>>>,
    choices: Seq<M>,
    dflt: M,
    j: int,
    s: int,
)
    requires
        conds.len() == choices.len(),
        0 <= s < conds.len(),
        forall|t: int| 0 <= t < s ==> #[trigger] conds[t][j] != Some(true),
        conds[s][j] == Some(true),
    ensures
        select_at(conds, choices, dflt, j) == choices[s],
    decreases s,
{
    if s > 0 {
        assert(conds[0][j] != Some(true));
        assert forall|t: int| 0 <= t < s - 1 implies #[trigger] conds.drop_first()[t][j] != Some(
            true,
        ) by {
            assert(conds.drop_first()[t] == conds[t + 1]);
        }
        lemma_select_at_hit(conds.drop_first(), choices.drop_first(), dflt, j, s - 1);
    }
}

proof fn lemma_select_at_miss<M>(conds: Seq<Seq<Option<bool>>>, choices: Seq<M>, dflt: M, j: int)
    requires
        forall|t: int| 0 <= t < conds.len() ==> #[trigger] conds[t][j] != Some(true),
    ensures
        select_at(conds, choices, dflt, j) == dflt,
    decreases conds.len(),
{
    if conds.len() > 0 {
        assert forall|t: int|
            0 <= t < conds.drop_first().len() implies #[trigger] conds.drop_first()[t][j] != Some(
            true,
        ) by {
            assert(conds.drop_first()[t] == conds[t + 1]);
        }
        lemma_select_at_miss(conds.drop_first(), choices.drop_first(), dflt, j);
    }
}

/// The abstract values of a list of condition lists.
pub open spec fn cond_views(cs: Seq<UList<bool>>) -> Seq<Seq<Option<bool>>> {
    cs.map_values(|c: UList<bool>| c@)
}

/// The models of a list of choice values.
pub open spec fn choice_models<T: Elem>(cs: Seq<T>) -> Seq<T::M> {
    cs.map_values(|c: T| c.m())
}

/// For each position, picks the choice of the first condition list that is
/// true there, or the default when none is; the declaration order of the
/// condition lists decides. All condition lists must have one length and no
/// missing position: a length mismatch fails with `SizeMismatch`, a missing
/// position (checked after all lengths) with `ContainsMissing`.
pub fn select<T: Elem>(conditions: &Vec<UList<bool>>, choices: &Vec<T>, default: T) -> (r: Result<
    UList<T>,
    UListError,
>)
    requires
        conditions@.len() == choices@.len(),
        conditions@.len() >= 1,
        forall|i: int| 0 <= i < conditions@.len() ==> (#[trigger] conditions@[i]).wf(),
    ensures
        match r {
            Ok(out) => {
                &&& forall|i: int|
                    0 <= i < conditions@.len() ==> (#[trigger] conditions@[i])@.len()
                        == conditions@[0]@.len()
                &&& forall|i: int| 0 <= i < conditions@.len() ==> !has_none(
                    (#[trigger] conditions@[i])@,
                )
                &&& out.wf()
                &&& out@.len() == conditions@[0]@.len()
                &&& forall|j: int|
                    0 <= j < out@.len() ==> #[trigger] out@[j] == Some(
                        select_at(
                            cond_views(conditions@),
                            choice_models::<T>(choices@),
                            default.m(),
                            j,
                        ),
                    )
            },
            Err(e) => (e == UListError::SizeMismatch && exists|i: int|
                0 <= i < conditions@.len() && (#[trigger] conditions@[i])@.len()
                    != conditions@[0]@.len()) || (e == UListError::ContainsMissing && (forall|
                i: int,
            |
                0 <= i < conditions@.len() ==> (#[trigger] conditions@[i])@.len()
                    == conditions@[0]@.len()) && exists|i: int|
                0 <= i < conditions@.len() && has_none((#[trigger] conditions@[i])@)),
        },
{
    let n_c = conditions.len();
    let l = conditions[0].size();
    let mut i: usize = 1;
    while i < n_c
        invariant
            n_c == conditions@.len(),
            l == conditions@[0]@.len(),
            forall|t: int| 0 <= t < conditions@.len() ==> (#[trigger] conditions@[t]).wf(),
            1 <= i <= n_c,
            forall|t: int| 0 <= t < i ==> (#[trigger] conditions@[t])@.len() == l,
        decreases n_c - i,
    {
        if conditions[i].size() != l {
            return Err(UListError::SizeMismatch);
        }
        i = i + 1;
    }
    let mut i: usize = 0;
    while i < n_c
        invariant
            n_c == conditions@.len(),
            forall|t: int| 0 <= t < conditions@.len() ==> (#[trigger] conditions@[t]).wf(),
            forall|t: int| 0 <= t < conditions@.len() ==> (#[trigger] conditions@[t])@.len() == l,
            i <= n_c,
            forall|t: int| 0 <= t < i ==> !has_none((#[trigger] conditions@[t])@),
        decreases n_c - i,
    {
        if conditions[i].has_na() {
            return Err(UListError::ContainsMissing);
        }
        i = i + 1;
    }
    let ghost views = cond_views(conditions@);
    let ghost models = choice_models::<T>(choices@);
    let mut values: Vec<T> = Vec::new();
    let mut j: usize = 0;
    while j < l
        invariant
            n_c == conditions@.len(),
            n_c == choices@.len(),
            forall|t: int| 0 <= t < conditions@.len() ==> (#[trigger] conditions@[t]).wf(),
            forall|t: int| 0 <= t < conditions@.len() ==> (#[trigger] conditions@[t])@.len() == l,
            views == cond_views(conditions@),
            models == choice_models::<T>(choices@),
            j <= l,
            values@.len() == j,
            forall|u: int|
                0 <= u < j ==> (#[trigger] values@[u].m()) == select_at(
                    views,
                    models,
                    default.m(),
                    u,
                ),
        decreases l - j,
    {
        let mut sel: usize = n_c;
        let mut i: usize = 0;
        while i < n_c
            invariant
                n_c == conditions@.len(),
                forall|t: int| 0 <= t < conditions@.len() ==> (#[trigger] conditions@[t]).wf(),
                forall|t: int|
                    0 <= t < conditions@.len() ==> (#[trigger] conditions@[t])@.len() == l,
                views == cond_views(conditions@),
                j < l,
                i <= n_c,
                sel == n_c || sel < i,
                sel == n_c ==> forall|t: int|
                    0 <= t < i ==> #[trigger] views[t][j as int] != Some(true),
                sel < n_c ==> views[sel as int][j as int] == Some(true) && forall|t: int|
                    0 <= t < sel ==> #[trigger] views[t][j as int] != Some(true),
            decreases n_c - i,
        {
            proof {
                assert(views[i as int] == conditions@[i as int]@);
            }
            if sel == n_c {
                let c = &conditions[i];
                if !c.na[j] && c.values[j] {
                    proof {
                        assert(conditions@[i as int]@[j as int] == Some(true));
                    }
                    sel = i;
                }
            }
            i = i + 1;
        }
        if sel < n_c {
            proof {
                lemma_select_at_hit(views, models, default.m(), j as int, sel as int);
                assert(models[sel as int] == choices@[sel as int].m());
            }
            values.push(choices[sel].clone_elem());
        } else {
            proof {
                lemma_select_at_miss(views, models, default.m(), j as int);
            }
            values.push(default.clone_elem());
        }
        j = j + 1;
    }
    let mut na: Vec<bool> = Vec::new();
    let mut t: usize = 0;
    while t < l
        invariant
            t <= l,
            na@.len() == t,
            forall|u: int| 0 <= u < t ==> !(#[trigger] na@[u]),
        decreases l - t,
    {
        na.push(false);
        t = t + 1;
    }
    let out = UList { values, na };
    Ok(out)
}

/// `select` over boolean choices.
pub fn select_bool(conditions: &Vec<UList<bool>>, choices: &Vec<bool>, default: bool) -> (r:
    Result<UList<bool>, UListError>)
    requires
        conditions@.len() == choices@.len(),
        conditions@.len() >= 1,
        forall|i: int| 0 <= i < conditions@.len() ==> (#[trigger] conditions@[i]).wf(),
    ensures
        match r {
            Ok(out) => {
                &&& out.wf()
                &&& out@.len() == conditions@[0]@.len()
                &&& forall|j: int|
                    0 <= j < out@.len() ==> #[trigger] out@[j] == Some(
                        select_at(
                            cond_views(conditions@),
                            choice_models::<bool>(choices@),
                            default,
                            j,
                        ),
                    )
            },
            Err(e) => (e == UListError::SizeMismatch && exists|i: int|
                0 <= i < conditions@.len() && (#[trigger] conditions@[i])@.len()
                    != conditions@[0]@.len()) || (e == UListError::ContainsMissing && (forall|
                i: int,
            |
                0 <= i < conditions@.len() ==> (#[trigger] conditions@[i])@.len()
                    == conditions@[0]@.len()) && exists|i: int|
                0 <= i < conditions@.len() && has_none((#[trigger] conditions@[i])@)),
        },
{
    select(conditions, choices, default)
}

/// `select` over 64-bit integer choices.
pub fn select_int(conditions: &Vec<UList<bool>>, choices: &Vec<i64>, default: i64) -> (r: Result<
    UList<i64>,
    UListError,
>)
    requires
        conditions@.len() == choices@.len(),
        conditions@.len() >= 1,
        forall|i: int| 0 <= i < conditions@.len() ==> (#[trigger] conditions@[i]).wf(),
    ensures
        match r {
            Ok(out) => {
                &&& out.wf()
                &&& out@.len() == conditions@[0]@.len()
                &&& forall|j: int|
                    0 <= j < out@.len() ==> #[trigger] out@[j] == Some(
                        select_at(
                            cond_views(conditions@),
                            choice_models::<i64>(choices@),
                            default as int,
                            j,
                        ),
                    )
            },
            Err(e) => (e == UListError::SizeMismatch && exists|i: int|
                0 <= i < conditions@.len() && (#[trigger] conditions@[i])@.len()
                    != conditions@[0]@.len()) || (e == UListError::ContainsMissing && (forall|
                i: int,
            |
                0 <= i < conditions@.len() ==> (#[trigger] conditions@[i])@.len()
                    == conditions@[0]@.len()) && exists|i: int|
                0 <= i < conditions@.len() && has_none((#[trigger] conditions@[i])@)),
        },
{
    select(conditions, choices, default)
}

/// `select` over string choices.
pub fn select_string(conditions: &Vec<UList<bool>>, choices: &Vec<String>, default: String) -> (r:
    Result<UList<String>, UListError>)
    requires
        conditions@.len() == choices@.len(),
        conditions@.len() >= 1,
        forall|i: int| 0 <= i < conditions@.len() ==> (#[trigger] conditions@[i]).wf(),
    ensures
        match r {
            Ok(out) => {
                &&& out.wf()
                &&& out@.len() == conditions@[0]@.len()
                &&& forall|j: int|
                    0 <= j < out@.len() ==> #[trigger] out@[j] == Some(
                        select_at(
                            cond_views(conditions@),
                            choice_models::<String>(choices@),
                            default@,
                            j,
                        ),
                    )
            },
            Err(e) => (e == UListError::SizeMismatch && exists|i: int|
                0 <= i < conditions@.len() && (#[trigger] conditions@[i])@.len()
                    != conditions@[0]@.len()) || (e == UListError::ContainsMissing && (forall|
                i: int,
            |
                0 <= i < conditions@.len() ==> (#[trigger] conditions@[i])@.len()
                    == conditions@[0]@.len()) && exists|i: int|
                0 <= i < conditions@.len() && has_none((#[trigger] conditions@[i])@)),
        },
{
    select(conditions, choices, default)
}
} // verus!
