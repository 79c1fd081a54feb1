use vstd::prelude::*;
use vstd::string::StrSliceExecFns;
use vstd::string::StringExecFns;

verus! {

/// How two vectors are scored; a higher score means more similar.
#[derive(Clone, Copy, Debug, PartialEq, Eq, Structural)]
pub enum Metric {
    Euclidean,
    Cosine,
    DotProduct,
}

/// The name under which a metric is written in a segment's metadata.
pub open spec fn metric_name(m: Metric) -> Seq<char> {
    match m {
        Metric::Euclidean => "Euclidean"@,
        Metric::Cosine => "Cosine"@,
        Metric::DotProduct => "DotProduct"@,
    }
}

/// The metric whose name is `s`, if any.
pub open spec fn metric_named(s: Seq<char>) -> Option<Metric> {
    if s == metric_name(Metric::Euclidean) {
        Some(Metric::Euclidean)
    } else if s == metric_name(Metric::Cosine) {
        Some(Metric::Cosine)
    } else if s == metric_name(Metric::DotProduct) {
        Some(Metric::DotProduct)
    } else {
        None
    }
}

fn same_text(a: &str, b: &str) -> (r: bool)
    ensures
        r == (a@ == b@),
{
    let n = a.unicode_len();
    if n != b.unicode_len() {
        return false;
    }
    let mut i: usize = 0;
    while i < n
        invariant
            n == a@.len(),
            n == b@.len(),
            i <= n,
            forall|j: int| 0 <= j < i ==> a@[j] == b@[j],
        decreases n - i,
    {
        if a.get_char(i) != b.get_char(i) {
            return false;
        }
        i = i + 1;
    }
    assert(a@ =~= b@);
    true
}

impl Metric {
    /// The metric's name, as written in a segment's metadata.
    pub fn name(&self) -> (r: String)
        ensures
            r@ == metric_name(*self),
    {
        match self {
            Metric::Euclidean => String::from_str("Euclidean"),
            Metric::Cosine => String::from_str("Cosine"),
            Metric::DotProduct => String::from_str("DotProduct"),
        }
    }

    /// The metric with the given name; `None` for any other string.
    pub fn from_name(s: &str) -> (r: Option<Metric>)
        ensures
            r == metric_named(s@),
    {
        if same_text(s, "Euclidean") {
            Some(Metric::Euclidean)
        } else if same_text(s, "Cosine") {
            Some(Metric::Cosine)
        } else if same_text(s, "DotProduct") {
            Some(Metric::DotProduct)
        } else {
            None
        }
    }
}

/// Every metric's name reads back as that metric.
pub proof fn lemma_name_round_trip(m: Metric)
    ensures
        metric_named(metric_name(m)) == Some(m),
{
    reveal_strlit("Euclidean");
    reveal_strlit("Cosine");
    reveal_strlit("DotProduct");
    assert("Euclidean"@.len() == 9);
    assert("Cosine"@.len() == 6);
    assert("DotProduct"@.len() == 10);
    assert("Cosine"@ != "Euclidean"@);
    assert("DotProduct"@ != "Euclidean"@);
    assert("DotProduct"@ != "Cosine"@);
}

} // verus!
