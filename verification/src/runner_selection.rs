//! Which runner of a skill's manifest a run or an inspection uses: the one
//! asked for, else the single default, else the only runner.
use vstd::prelude::*;

use crate::package_source::{hex_encode, hex_lower};
use crate::text::{concat, str_eq};

verus! {

/// How many runners are marked default.
pub open spec fn default_count(runners: Seq<(String, bool)>) -> nat
    decreases runners.len(),
{
    if runners.len() == 0 {
        0
    } else {
        default_count(runners.drop_last()) + if runners.last().1 {
            1nat
        } else {
            0nat
        }
    }
}

/// Runner `i` is the only default.
pub open spec fn sole_default(runners: Seq<(String, bool)>, i: int) -> bool {
    0 <= i < runners.len() && runners[i].1 && forall|j: int| 0 <= j < runners.len() && j != i ==> !#[trigger] runners[j].1
}

/// Runner `i` is the first one named `name`.
pub open spec fn first_named(runners: Seq<(String, bool)>, name: Seq<char>, i: int) -> bool {
    0 <= i < runners.len() && runners[i].0@ == name && forall|j: int| 0 <= j < i ==> #[trigger] runners[j].0@ != name
}

pub open spec fn has_runner(runners: Seq<(String, bool)>, name: Seq<char>) -> bool {
    exists|i: int| 0 <= i < runners.len() && #[trigger] runners[i].0@ == name
}

proof fn lemma_default_count_prefix(runners: Seq<(String, bool)>, i: int)
    requires
        0 <= i < runners.len(),
    ensures
        default_count(runners.subrange(0, i + 1)) == default_count(runners.subrange(0, i)) + if runners[i].1 {
            1nat
        } else {
            0nat
        },
{
    assert(runners.subrange(0, i + 1).drop_last() =~= runners.subrange(0, i));
}

proof fn lemma_no_defaults(runners: Seq<(String, bool)>)
    requires
        default_count(runners) == 0,
    ensures
        forall|j: int| 0 <= j < runners.len() ==> !#[trigger] runners[j].1,
    decreases runners.len(),
{
    if runners.len() > 0 {
        lemma_no_defaults(runners.drop_last());
        assert forall|j: int| 0 <= j < runners.len() implies !#[trigger] runners[j].1 by {
            if j < runners.len() - 1 {
                assert(runners.drop_last()[j] == runners[j]);
            }
        }
    }
}

proof fn lemma_one_default(runners: Seq<(String, bool)>, i: int)
    requires
        default_count(runners) == 1,
        0 <= i < runners.len(),
        runners[i].1,
    ensures
        sole_default(runners, i),
    decreases runners.len(),
{
    let p = runners.drop_last();
    if i == runners.len() - 1 {
        lemma_no_defaults(p);
        assert forall|j: int| 0 <= j < runners.len() && j != i implies !#[trigger] runners[j].1 by {
            assert(p[j] == runners[j]);
        }
    } else {
        assert(p[i] == runners[i]);
        if runners.last().1 {
            lemma_count_positive(p, i);
        }
        lemma_one_default(p, i);
        assert forall|j: int| 0 <= j < runners.len() && j != i implies !#[trigger] runners[j].1 by {
            if j < runners.len() - 1 {
                assert(p[j] == runners[j]);
            }
        }
    }
}

proof fn lemma_count_positive(runners: Seq<(String, bool)>, i: int)
    requires
        0 <= i < runners.len(),
        runners[i].1,
    ensures
        default_count(runners) >= 1,
    decreases runners.len(),
{
    if i < runners.len() - 1 {
        assert(runners.drop_last()[i] == runners[i]);
        lemma_count_positive(runners.drop_last(), i);
    }
}

proof fn lemma_count_of_sole(runners: Seq<(String, bool)>, i: int)
    requires
        0 <= i <= runners.len(),
        forall|j: int| 0 <= j < runners.len() && j != i ==> !#[trigger] runners[j].1,
    ensures
        default_count(runners) == (if i < runners.len() && runners[i].1 {
            1nat
        } else {
            0nat
        }),
    decreases runners.len(),
{
    if runners.len() > 0 {
        let p = runners.drop_last();
        let n = runners.len() - 1;
        assert forall|j: int| 0 <= j < p.len() && j != i implies !#[trigger] p[j].1 by {
            assert(p[j] == runners[j]);
        }
        if i >= n {
            lemma_count_of_sole(p, p.len() as int);
        } else {
            lemma_count_of_sole(p, i);
            assert(p[i] == runners[i]);
        }
    }
}

/// The run's choice without a requested name, in terms of the default
/// marks themselves: the runner marked default when exactly one is, the
/// only runner when none is marked and there is one runner, and a refusal
/// when none is marked among several or several are marked.
pub proof fn lemma_default_choice_law(runners: Seq<(String, bool)>)
    ensures
        default_count(runners) == 0 <==> forall|j: int| 0 <= j < runners.len() ==> !#[trigger] runners[j].1,
        default_count(runners) == 1 <==> exists|i: int| #[trigger] sole_default(runners, i),
        default_count(runners) > 1 <==> exists|i: int, j: int|
            0 <= i < j < runners.len() && #[trigger] runners[i].1 && #[trigger] runners[j].1,
{
    if forall|j: int| 0 <= j < runners.len() ==> !#[trigger] runners[j].1 {
        lemma_count_of_sole(runners, runners.len() as int);
    }
    if default_count(runners) == 0 {
        lemma_no_defaults(runners);
    }
    if exists|i: int| #[trigger] sole_default(runners, i) {
        let i = choose|i: int| #[trigger] sole_default(runners, i);
        lemma_count_of_sole(runners, i);
    }
    if default_count(runners) == 1 {
        if forall|j: int| 0 <= j < runners.len() ==> !#[trigger] runners[j].1 {
            lemma_count_of_sole(runners, runners.len() as int);
        }
        let i = choose|i: int| 0 <= i < runners.len() && #[trigger] runners[i].1;
        lemma_one_default(runners, i);
    }
    if exists|i: int, j: int| 0 <= i < j < runners.len() && #[trigger] runners[i].1 && #[trigger] runners[j].1 {
        let (i, j) = choose|i: int, j: int|
            0 <= i < j < runners.len() && #[trigger] runners[i].1 && #[trigger] runners[j].1;
        lemma_count_positive(runners, i);
        if default_count(runners) == 1 {
            lemma_one_default(runners, i);
        }
    }
    if default_count(runners) > 1 {
        if forall|j: int| 0 <= j < runners.len() ==> !#[trigger] runners[j].1 {
            lemma_count_of_sole(runners, runners.len() as int);
        }
        let i = choose|i: int| 0 <= i < runners.len() && #[trigger] runners[i].1;
        if forall|j: int| 0 <= j < runners.len() && j != i ==> !#[trigger] runners[j].1 {
            lemma_count_of_sole(runners, i);
        }
        let j = choose|j: int| 0 <= j < runners.len() && j != i && #[trigger] runners[j].1;
        if i < j {
            assert(runners[i].1 && runners[j].1);
        } else {
            assert(runners[j].1 && runners[i].1);
        }
    }
}

/// The runner a run uses, by position in the manifest's runners (name and
/// whether it is the default).
pub fn selected_runner(runners: &Vec<(String, bool)>, requested: Option<&str>) -> (r: Result<usize, String>)
    ensures
        match requested {
            Some(name) => match r {
                Ok(i) => first_named(runners@, name@, i as int),
                Err(m) => !has_runner(runners@, name@) && m@ == "runner "@ + name@
                    + " is not declared in the manifest"@,
            },
            None => if default_count(runners@) == 1 {
                r matches Ok(i) && sole_default(runners@, i as int)
            } else if default_count(runners@) == 0 && runners@.len() == 1 {
                r == Ok::<usize, String>(0)
            } else if default_count(runners@) == 0 {
                r matches Err(m) && m@ == "runner manifest has no default runner"@
            } else {
                r matches Err(m) && m@ == "runner manifest declares multiple default runners"@
            },
        },
{
    if let Some(name) = requested {
        let mut i: usize = 0;
        while i < runners.len()
            invariant
                i <= runners@.len(),
                requested == Some(name),
                forall|j: int| 0 <= j < i ==> #[trigger] runners@[j].0@ != name@,
            decreases runners.len() - i,
        {
            if str_eq(runners[i].0.as_str(), name) {
                return Ok(i);
            }
            i = i + 1;
        }
        let head = concat("runner ", name);
        return Err(concat(head.as_str(), " is not declared in the manifest"));
    }
    let mut count: usize = 0;
    let mut first: usize = 0;
    let mut i: usize = 0;
    assert(runners@.subrange(0, 0) =~= Seq::<(String, bool)>::empty());
    while i < runners.len()
        invariant
            i <= runners@.len(),
            count == default_count(runners@.subrange(0, i as int)),
            count <= i,
            count > 0 ==> first < i && runners@[first as int].1,
        decreases runners.len() - i,
    {
        proof {
            lemma_default_count_prefix(runners@, i as int);
        }
        if runners[i].1 {
            if count == 0 {
                first = i;
            }
            count = count + 1;
        }
        i = i + 1;
    }
    assert(runners@.subrange(0, runners@.len() as int) =~= runners@);
    if count == 1 {
        proof {
            lemma_one_default(runners@, first as int);
        }
        Ok(first)
    } else if count == 0 && runners.len() == 1 {
        Ok(0)
    } else if count == 0 {
        Err("runner manifest has no default runner".to_owned())
    } else {
        Err("runner manifest declares multiple default runners".to_owned())
    }
}

/// The runner an inspection describes: the one asked for (which must
/// exist), else the single default, else the only runner, else none.
pub fn inspection_runner(runners: Option<&Vec<(String, bool)>>, requested: Option<&str>) -> (r: Result<
    Option<usize>,
    String,
>)
    ensures
        match (runners, requested) {
            (Some(rs), Some(name)) => match r {
                Ok(Some(i)) => first_named(rs@, name@, i as int),
                Ok(None) => false,
                Err(m) => !has_runner(rs@, name@) && m@ == "skill has no runner '"@ + name@ + "'"@,
            },
            (Some(rs), None) => if exists|i: int| 0 <= i < rs@.len() && #[trigger] rs@[i].1 {
                r matches Ok(Some(i)) && 0 <= i < rs@.len() && rs@[i as int].1 && forall|j: int|
                    0 <= j < i ==> !#[trigger] rs@[j].1
            } else if rs@.len() == 1 {
                r == Ok::<Option<usize>, String>(Some(0))
            } else {
                r == Ok::<Option<usize>, String>(None)
            },
            (None, Some(name)) => r matches Err(m) && m@ == "skill has no runner '"@ + name@ + "'"@,
            (None, None) => r == Ok::<Option<usize>, String>(None),
        },
{
    match (runners, requested) {
        (Some(rs), Some(name)) => {
            let mut i: usize = 0;
            while i < rs.len()
                invariant
                    i <= rs@.len(),
                    runners == Some(rs),
                    requested == Some(name),
                    forall|j: int| 0 <= j < i ==> #[trigger] rs@[j].0@ != name@,
                decreases rs.len() - i,
            {
                if str_eq(rs[i].0.as_str(), name) {
                    return Ok(Some(i));
                }
                i = i + 1;
            }
            let head = concat("skill has no runner '", name);
            Err(concat(head.as_str(), "'"))
        },
        (Some(rs), None) => {
            let mut i: usize = 0;
            while i < rs.len()
                invariant
                    i <= rs@.len(),
                    runners == Some(rs),
                    requested is None,
                    forall|j: int| 0 <= j < i ==> !#[trigger] rs@[j].1,
                decreases rs.len() - i,
            {
                if rs[i].1 {
                    return Ok(Some(i));
                }
                i = i + 1;
            }
            if rs.len() == 1 {
                Ok(Some(0))
            } else {
                Ok(None)
            }
        },
        (None, Some(name)) => {
            let head = concat("skill has no runner '", name);
            Err(concat(head.as_str(), "'"))
        },
        (None, None) => Ok(None),
    }
}

/// The first `chars` characters of the lowercase hex of `bytes`.
pub fn hex_prefix(bytes: &[u8], chars: usize) -> (r: String)
    ensures
        r@ == if chars <= hex_lower(bytes@).len() {
            hex_lower(bytes@).take(chars as int)
        } else {
            hex_lower(bytes@)
        },
{
    let full = hex_encode(bytes);
    let v = crate::text::chars_of(full.as_str());
    if chars <= v.len() {
        crate::text::string_from_range(&v, 0, chars)
    } else {
        full
    }
}

} // verus!
