//! Fixing one format for a whole collection of dates, by elimination.
use vstd::prelude::*;
use crate::date_order::{default_options, DateOptions, DateOrder};
use crate::guess::{date_splitter, guess_date_order, guess_date_splitter, guess_spec, DateOrderGuess};
use crate::text::{trim, trimmed};

verus! {

/// The options one sample settles: none for a blank sample, for text that
/// is no date, and for a date whose order stays open.
pub open spec fn sample_verdict(s: Seq<char>) -> Option<DateOptions> {
    if trim(s).len() == 0 {
        None
    } else {
        let sp = date_splitter(s);
        let g = guess_spec(s, sp);
        if g.is_conclusive() {
            Some(DateOptions(g.order_of(), sp))
        } else {
            None
        }
    }
}

/// The verdict of the first sample, in order, that settles the options;
/// missing samples are passed over.
pub open spec fn first_verdict(samples: Seq<Option<Seq<char>>>) -> Option<DateOptions>
    decreases samples.len(),
{
    if samples.len() == 0 {
        None
    } else {
        let v = match samples[0] {
            Some(s) => sample_verdict(s),
            None => None,
        };
        if v is Some {
            v
        } else {
            first_verdict(samples.drop_first())
        }
    }
}

/// The options for a collection: the first settled verdict, else year
/// first with hyphens.
pub open spec fn detect_spec(samples: Seq<Option<Seq<char>>>) -> DateOptions {
    match first_verdict(samples) {
        Some(o) => o,
        None => default_options(),
    }
}

/// The views of optional strings.
pub open spec fn opt_views(v: Seq<Option<String>>) -> Seq<Option<Seq<char>>> {
    v.map_values(|o: Option<String>| match o {
        Some(s) => Some(s@),
        None => None,
    })
}

/// The views of a list of string slices, each present.
pub open spec fn present_views(v: Seq<&str>) -> Seq<Option<Seq<char>>> {
    v.map_values(|s: &str| Some(s@))
}

/// A sample added at the end matters only where no earlier one settled the
/// options.
pub proof fn lemma_first_verdict_push(a: Seq<Option<Seq<char>>>, x: Option<Seq<char>>)
    ensures
        first_verdict(a.push(x)) == (if first_verdict(a) is Some {
            first_verdict(a)
        } else {
            first_verdict(seq![x])
        }),
    decreases a.len(),
{
    if a.len() > 0 {
        assert(a.push(x).drop_first() =~= a.drop_first().push(x));
        lemma_first_verdict_push(a.drop_first(), x);
    } else {
        assert(a.push(x) =~= seq![x]);
    }
    assert(seq![x].drop_first() =~= Seq::<Option<Seq<char>>>::empty());
}

/// The options one sample settles.
fn sample_options(s: &str) -> (r: Option<DateOptions>)
    ensures
        r == sample_verdict(s@),
{
    if trimmed(s).len() == 0 {
        return None;
    }
    let split_char = guess_date_splitter(s);
    match guess_date_order(s, split_char) {
        DateOrderGuess::YearFirst => Some(DateOptions(DateOrder::YMD, split_char)),
        DateOrderGuess::DayFirst => Some(DateOptions(DateOrder::DMY, split_char)),
        DateOrderGuess::MonthFirst => Some(DateOptions(DateOrder::MDY, split_char)),
        _ => None,
    }
}

/// The format of a list of date strings, assumed to share one, deduced by
/// elimination.
pub fn detect_date_format_from_list(date_list: &[&str]) -> (r: DateOptions)
    ensures
        r == detect_spec(present_views(date_list@)),
{
    let ghost all = present_views(date_list@);
    let mut i: usize = 0;
    assert(all.skip(0) =~= all);
    while i < date_list.len()
        invariant
            i <= date_list@.len(),
            all == present_views(date_list@),
            first_verdict(all) == first_verdict(all.skip(i as int)),
        decreases date_list@.len() - i,
    {
        assert(all.skip(i as int).drop_first() =~= all.skip(i + 1));
        assert(all.skip(i as int)[0] == Some(date_list@[i as int]@));
        if let Some(opts) = sample_options(date_list[i]) {
            return opts;
        }
        i = i + 1;
    }
    assert(all.skip(i as int) =~= Seq::<Option<Seq<char>>>::empty());
    DateOptions(DateOrder::YMD, Some('-'))
}

/// The format of a list of records whose date strings, as `extract_date`
/// gives them, are assumed to share one, deduced by elimination. Records
/// are read in order until one settles the format.
pub fn detect_date_format_from_generic_list<T, F: Fn(&T) -> Option<String>>(date_list: &[T], extract_date: F) -> (r: DateOptions)
    requires
        forall|i: int| 0 <= i < date_list@.len() ==> extract_date.requires((&date_list@[i],)),
    ensures
        exists|seen: Seq<Option<String>>|
            {
                &&& seen.len() <= date_list@.len()
                &&& forall|i: int| 0 <= i < seen.len() ==> extract_date.ensures((&date_list@[i],), #[trigger] seen[i])
                &&& seen.len() < date_list@.len() ==> first_verdict(opt_views(seen)) is Some
                &&& r == detect_spec(opt_views(seen))
            },
{
    let ghost mut seen: Seq<Option<String>> = Seq::empty();
    let mut i: usize = 0;
    while i < date_list.len()
        invariant
            i <= date_list@.len(),
            seen.len() == i,
            forall|k: int| 0 <= k < date_list@.len() ==> extract_date.requires((&date_list@[k],)),
            forall|k: int| 0 <= k < seen.len() ==> extract_date.ensures((&date_list@[k],), #[trigger] seen[k]),
            first_verdict(opt_views(seen)) is None,
        decreases date_list@.len() - i,
    {
        let row = &date_list[i];
        let dt = extract_date(row);
        let ghost prev = seen;
        proof {
            seen = seen.push(dt);
            assert(opt_views(seen) =~= opt_views(prev).push(opt_views(seen)[i as int]));
            lemma_first_verdict_push(opt_views(prev), opt_views(seen)[i as int]);
            assert(seq![opt_views(seen)[i as int]].drop_first() =~= Seq::<Option<Seq<char>>>::empty());
        }
        let verdict = match &dt {
            Some(dt_str) => sample_options(dt_str.as_str()),
            None => None,
        };
        proof {
            let x = opt_views(seen)[i as int];
            assert(x == (match dt {
                Some(s) => Some(s@),
                None => None::<Seq<char>>,
            }));
            assert(first_verdict(Seq::<Option<Seq<char>>>::empty()) is None);
            assert(first_verdict(seq![x]) == verdict);
        }
        if let Some(opts) = verdict {
            return opts;
        }
        i = i + 1;
    }
    DateOptions(DateOrder::YMD, Some('-'))
}

} // verus!
