//! Validation findings.

use vstd::prelude::*;

verus! {

/// Severity of a finding.
#[derive(Debug, Clone, Copy, PartialEq, Eq)]
pub enum ValidationSeverity {
    /// A specification violation.
    Error,
    /// A non-fatal issue.
    Warning,
    /// An informational note.
    Info,
}

/// One finding: severity, code, message and optional suggestion and context.
#[derive(Debug, Clone)]
pub struct ValidationItem {
    /// Severity.
    pub severity: ValidationSeverity,
    /// Numeric code of the kind of finding.
    pub code: u32,
    /// Description.
    pub message: String,
    /// Suggested remedy.
    pub suggestion: Option<String>,
    /// What is affected, such as `Object 5`.
    pub context: Option<String>,
}

/// The findings of a validation run, in the order they were made.
#[derive(Debug, Clone)]
pub struct ValidationReport {
    /// The findings.
    pub items: Vec<ValidationItem>,
}

/// Whether `item` is a finding of the given severity, code and message, without
/// suggestion or context.
pub open spec fn is_finding(item: ValidationItem, sev: ValidationSeverity, code: u32, msg: Seq<char>) -> bool {
    &&& item.severity == sev
    &&& item.code == code
    &&& item.message@ == msg
    &&& item.suggestion is None
    &&& item.context is None
}

/// A finding as the checks describe it: severity, code and message.
pub type Finding = (ValidationSeverity, u32, Seq<char>);

/// Whether `new` is `old` followed by items matching the findings `fs`, in order.
pub open spec fn appended(old: Seq<ValidationItem>, new: Seq<ValidationItem>, fs: Seq<Finding>) -> bool {
    &&& new.len() == old.len() + fs.len()
    &&& forall|i: int| 0 <= i < old.len() ==> new[i] == old[i]
    &&& forall|k: int| 0 <= k < fs.len() ==> is_finding(#[trigger] new[old.len() + k], fs[k].0, fs[k].1, fs[k].2)
}

/// Nothing appended.
pub proof fn lemma_appended_none(a: Seq<ValidationItem>)
    ensures
        appended(a, a, Seq::<Finding>::empty()),
{
}

/// Appending in two steps appends the concatenation.
pub proof fn lemma_appended_trans(
    a: Seq<ValidationItem>,
    b: Seq<ValidationItem>,
    c: Seq<ValidationItem>,
    f1: Seq<Finding>,
    f2: Seq<Finding>,
)
    requires
        appended(a, b, f1),
        appended(b, c, f2),
    ensures
        appended(a, c, f1 + f2),
{
    assert forall|k: int| 0 <= k < (f1 + f2).len() implies is_finding(#[trigger] c[a.len() + k], (f1 + f2)[k].0, (f1 + f2)[k].1, (f1 + f2)[k].2) by {
        if k < f1.len() {
            assert(c[a.len() + k] == b[a.len() + k]);
            assert(is_finding(b[a.len() + k], f1[k].0, f1[k].1, f1[k].2));
        } else {
            let k2 = k - f1.len();
            assert(c[b.len() + k2] == c[a.len() + k]);
            assert(is_finding(c[b.len() + k2], f2[k2].0, f2[k2].1, f2[k2].2));
        }
    }
}

/// The findings `f(0) + f(1) + ... + f(n - 1)`.
pub open spec fn concat_upto(n: nat, f: spec_fn(int) -> Seq<Finding>) -> Seq<Finding>
    decreases n,
{
    if n == 0 {
        Seq::empty()
    } else {
        concat_upto((n - 1) as nat, f) + f(n - 1)
    }
}

/// One more step of a loop that appends `f(i)` for each `i`.
pub proof fn lemma_appended_step(
    a: Seq<ValidationItem>,
    b: Seq<ValidationItem>,
    c: Seq<ValidationItem>,
    i: nat,
    f: spec_fn(int) -> Seq<Finding>,
)
    requires
        appended(a, b, concat_upto(i, f)),
        appended(b, c, f(i as int)),
    ensures
        appended(a, c, concat_upto(i + 1, f)),
{
    lemma_appended_trans(a, b, c, concat_upto(i, f), f(i as int));
    assert(concat_upto(i + 1, f) == concat_upto(i, f) + f(i as int));
}

/// A finding of one part of a concatenation is a finding of the whole.
pub proof fn lemma_concat_upto_contains(n: nat, f: spec_fn(int) -> Seq<Finding>, k: int, x: Finding)
    requires
        0 <= k < n,
        f(k).contains(x),
    ensures
        concat_upto(n, f).contains(x),
    decreases n,
{
    let j = choose|j: int| 0 <= j < f(k).len() && #[trigger] f(k)[j] == x;
    if k == n - 1 {
        let pre = concat_upto((n - 1) as nat, f);
        assert((pre + f(k))[pre.len() + j] == x);
    } else {
        lemma_concat_upto_contains((n - 1) as nat, f, k, x);
        let pre = concat_upto((n - 1) as nat, f);
        let i = choose|i: int| 0 <= i < pre.len() && pre[i] == x;
        assert((pre + f(n - 1))[i] == x);
    }
}

/// Each finding listed for a report that `appended` describes is one of its items.
pub proof fn lemma_appended_has(old: Seq<ValidationItem>, new: Seq<ValidationItem>, fs: Seq<Finding>, x: Finding)
    requires
        appended(old, new, fs),
        fs.contains(x),
    ensures
        exists|j: int| 0 <= j < new.len() && is_finding(#[trigger] new[j], x.0, x.1, x.2),
{
    let k = choose|k: int| 0 <= k < fs.len() && fs[k] == x;
    assert(is_finding(new[old.len() + k], fs[k].0, fs[k].1, fs[k].2));
}

/// Whether every finding of `a` occurs in `b` at least as many times.
pub open spec fn findings_within(a: Seq<Finding>, b: Seq<Finding>) -> bool {
    a.to_multiset().subset_of(b.to_multiset())
}

/// No findings lie within any list.
pub proof fn lemma_within_empty(b: Seq<Finding>)
    ensures
        findings_within(Seq::empty(), b),
{
    broadcast use vstd::seq_lib::group_to_multiset_ensures;
    assert forall|v: Finding| Seq::<Finding>::empty().to_multiset().count(v) <= b.to_multiset().count(v) by {
        assert(!Seq::<Finding>::empty().contains(v));
    }
}

/// A list of findings lies within itself.
pub proof fn lemma_within_refl(a: Seq<Finding>)
    ensures
        findings_within(a, a),
{
}

/// Two inclusions join along concatenation.
pub proof fn lemma_within_join(a1: Seq<Finding>, b1: Seq<Finding>, a2: Seq<Finding>, b2: Seq<Finding>)
    requires
        findings_within(a1, b1),
        findings_within(a2, b2),
    ensures
        findings_within(a1 + a2, b1 + b2),
{
    broadcast use vstd::multiset::group_multiset_axioms;
    vstd::seq_lib::lemma_multiset_commutative(a1, a2);
    vstd::seq_lib::lemma_multiset_commutative(b1, b2);
    assert forall|v: Finding| (a1 + a2).to_multiset().count(v) <= (b1 + b2).to_multiset().count(v) by {
        assert(a1.to_multiset().count(v) <= b1.to_multiset().count(v));
        assert(a2.to_multiset().count(v) <= b2.to_multiset().count(v));
    }
}

/// A finding list gated by a condition lies within the same list gated by a weaker one.
pub proof fn lemma_within_gate(c1: bool, c2: bool, x: Seq<Finding>)
    requires
        c1 ==> c2,
    ensures
        findings_within(if c1 { x } else { Seq::empty() }, if c2 { x } else { Seq::empty() }),
{
    if c1 {
        lemma_within_refl(x);
    } else {
        lemma_within_empty(if c2 { x } else { Seq::empty() });
    }
}

/// Concatenations of pointwise included lists are included.
pub proof fn lemma_within_concat_upto(n: nat, f: spec_fn(int) -> Seq<Finding>, g: spec_fn(int) -> Seq<Finding>)
    requires
        forall|k: int| 0 <= k < n ==> findings_within(#[trigger] f(k), g(k)),
    ensures
        findings_within(concat_upto(n, f), concat_upto(n, g)),
    decreases n,
{
    if n == 0 {
        lemma_within_empty(Seq::empty());
    } else {
        lemma_within_concat_upto((n - 1) as nat, f, g);
        lemma_within_join(concat_upto((n - 1) as nat, f), concat_upto((n - 1) as nat, g), f(n - 1), g(n - 1));
    }
}

/// Whether some finding has error severity.
pub open spec fn has_error_item(items: Seq<ValidationItem>) -> bool {
    exists|i: int| 0 <= i < items.len() && (#[trigger] items[i]).severity == ValidationSeverity::Error
}

impl ValidationReport {
    /// Creates an empty report.
    pub fn new() -> (r: Self)
        ensures
            r.items@.len() == 0,
    {
        ValidationReport { items: Vec::new() }
    }

    /// Appends an error finding.
    pub fn add_error(&mut self, code: u32, msg: String)
        ensures
            final(self).items@.len() == old(self).items@.len() + 1,
            final(self).items@.drop_last() == old(self).items@,
            is_finding(final(self).items@.last(), ValidationSeverity::Error, code, msg@),
            appended(old(self).items@, final(self).items@, seq![(ValidationSeverity::Error, code, msg@)]),
    {
        self.items.push(ValidationItem {
            severity: ValidationSeverity::Error,
            code,
            message: msg,
            suggestion: None,
            context: None,
        });
        assert(self.items@.drop_last() =~= old(self).items@);
        assert(self.items@[old(self).items@.len() + 0int] == self.items@.last());
    }

    /// Appends a warning finding.
    pub fn add_warning(&mut self, code: u32, msg: String)
        ensures
            final(self).items@.len() == old(self).items@.len() + 1,
            final(self).items@.drop_last() == old(self).items@,
            is_finding(final(self).items@.last(), ValidationSeverity::Warning, code, msg@),
            appended(old(self).items@, final(self).items@, seq![(ValidationSeverity::Warning, code, msg@)]),
    {
        self.items.push(ValidationItem {
            severity: ValidationSeverity::Warning,
            code,
            message: msg,
            suggestion: None,
            context: None,
        });
        assert(self.items@.drop_last() =~= old(self).items@);
        assert(self.items@[old(self).items@.len() + 0int] == self.items@.last());
    }

    /// Appends an informational finding.
    pub fn add_info(&mut self, code: u32, msg: String)
        ensures
            final(self).items@.len() == old(self).items@.len() + 1,
            final(self).items@.drop_last() == old(self).items@,
            is_finding(final(self).items@.last(), ValidationSeverity::Info, code, msg@),
            appended(old(self).items@, final(self).items@, seq![(ValidationSeverity::Info, code, msg@)]),
    {
        self.items.push(ValidationItem {
            severity: ValidationSeverity::Info,
            code,
            message: msg,
            suggestion: None,
            context: None,
        });
        assert(self.items@.drop_last() =~= old(self).items@);
        assert(self.items@[old(self).items@.len() + 0int] == self.items@.last());
    }

    /// Returns true if the report holds an error finding.
    pub fn has_errors(&self) -> (r: bool)
        ensures
            r == has_error_item(self.items@),
    {
        let mut i: usize = 0;
        while i < self.items.len()
            invariant
                i <= self.items@.len(),
                forall|j: int| 0 <= j < i ==> self.items@[j].severity != ValidationSeverity::Error,
            decreases self.items@.len() - i,
        {
            match self.items[i].severity {
                ValidationSeverity::Error => {
                    return true;
                },
                _ => {},
            }
            i = i + 1;
        }
        false
    }
}

impl Default for ValidationReport {
    fn default() -> (r: Self)
        ensures
            r.items@.len() == 0,
    {
        ValidationReport::new()
    }
}

} // verus!
