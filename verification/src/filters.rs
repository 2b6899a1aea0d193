//! The conditions that narrow a list of entries. A sparse set of filter
//! fields becomes one list of conditions; the count of a query and its
//! rows are both taken by that one list.
use vstd::prelude::*;
use vstd::string::*;
use crate::models::{PurchaseEntry, PurchaseFilters};
use crate::text::{contains_text, text_at_most, text_contains, text_le};

verus! {

/// One condition on an entry: a column, how it is compared, and the value
/// it is compared with.
#[derive(Debug, Clone, PartialEq, Eq)]
pub enum Predicate {
    /// The entry is of this supplier.
    SupplierIs(i64),
    /// The business date is this day or a later one.
    DateFrom(String),
    /// The business date is this day or an earlier one.
    DateTo(String),
    /// The entry has exactly this rate.
    GstRateIs(i64),
    /// The invoice number holds this text; letters of either ASCII case
    /// are taken as equal.
    InvoiceContains(String),
    /// The status is exactly this text.
    StatusIs(String),
}

/// Whether an entry meets a condition.
pub open spec fn holds(p: Predicate, e: PurchaseEntry) -> bool {
    match p {
        Predicate::SupplierIs(s) => e.supplier_id == s,
        Predicate::DateFrom(d) => text_le(d@, e.date@),
        Predicate::DateTo(d) => text_le(e.date@, d@),
        Predicate::GstRateIs(g) => e.gst_rate == g,
        Predicate::InvoiceContains(t) => text_contains(e.invoice_no@, t@),
        Predicate::StatusIs(s) => e.status@ == s@,
    }
}

/// Whether an entry meets every condition of a list.
pub open spec fn all_hold(ps: Seq<Predicate>, e: PurchaseEntry) -> bool {
    forall|i: int| 0 <= i < ps.len() ==> holds(#[trigger] ps[i], e)
}

/// The entries that pass a list of conditions, as a test on one entry.
pub open spec fn passing(ps: Seq<Predicate>) -> spec_fn(PurchaseEntry) -> bool {
    |e: PurchaseEntry| all_hold(ps, e)
}

/// What a set of filter fields asks of an entry, field by field. A field
/// that is absent asks nothing.
pub open spec fn accepts(f: PurchaseFilters, e: PurchaseEntry) -> bool {
    &&& f.supplier_id matches Some(s) ==> e.supplier_id == s
    &&& f.date_from matches Some(d) ==> text_le(d@, e.date@)
    &&& f.date_to matches Some(d) ==> text_le(e.date@, d@)
    &&& f.gst_rate matches Some(g) ==> e.gst_rate == g
    &&& f.invoice_no matches Some(t) ==> text_contains(e.invoice_no@, t@)
    &&& f.status matches Some(s) ==> e.status@ == s@
}

/// The condition that a field gives, if it is present.
pub open spec fn one<T>(field: Option<T>, make: spec_fn(T) -> Predicate) -> Seq<Predicate> {
    match field {
        Some(v) => seq![make(v)],
        None => Seq::<Predicate>::empty(),
    }
}

/// The list of conditions of a set of filter fields: one for each field
/// that is present, in the order supplier, first day, last day, rate,
/// invoice number, status.
pub open spec fn conditions_of(f: PurchaseFilters) -> Seq<Predicate> {
    one(f.supplier_id, |s: i64| Predicate::SupplierIs(s))
        + one(f.date_from, |d: String| Predicate::DateFrom(d))
        + one(f.date_to, |d: String| Predicate::DateTo(d))
        + one(f.gst_rate, |g: i64| Predicate::GstRateIs(g))
        + one(f.invoice_no, |t: String| Predicate::InvoiceContains(t))
        + one(f.status, |s: String| Predicate::StatusIs(s))
}

/// The conditions of an optional set of filter fields: none where no set
/// is given.
pub open spec fn conditions_of_opt(f: Option<PurchaseFilters>) -> Seq<Predicate> {
    match f {
        Some(f) => conditions_of(f),
        None => Seq::<Predicate>::empty(),
    }
}

/// The list of conditions of a set of filter fields asks of an entry
/// exactly what the fields ask.
pub proof fn conditions_mean_fields(f: PurchaseFilters, e: PurchaseEntry)
    ensures
        all_hold(conditions_of(f), e) == accepts(f, e),
{
    let a = one(f.supplier_id, |s: i64| Predicate::SupplierIs(s));
    let b = one(f.date_from, |d: String| Predicate::DateFrom(d));
    let c = one(f.date_to, |d: String| Predicate::DateTo(d));
    let d = one(f.gst_rate, |g: i64| Predicate::GstRateIs(g));
    let g = one(f.invoice_no, |t: String| Predicate::InvoiceContains(t));
    let h = one(f.status, |s: String| Predicate::StatusIs(s));
    let all = conditions_of(f);
    assert(all == a + b + c + d + g + h);
    if accepts(f, e) {
        assert forall|i: int| 0 <= i < all.len() implies holds(#[trigger] all[i], e) by {}
    }
    if all_hold(all, e) {
        let n1 = a.len() as int;
        let n2 = n1 + b.len();
        let n3 = n2 + c.len();
        let n4 = n3 + d.len();
        let n5 = n4 + g.len();
        if f.supplier_id is Some {
            assert(holds(all[0], e));
        }
        if f.date_from is Some {
            assert(holds(all[n1], e));
        }
        if f.date_to is Some {
            assert(holds(all[n2], e));
        }
        if f.gst_rate is Some {
            assert(holds(all[n3], e));
        }
        if f.invoice_no is Some {
            assert(holds(all[n4], e));
        }
        if f.status is Some {
            assert(holds(all[n5], e));
        }
    }
}

impl Predicate {
    /// Decides whether an entry meets this condition.
    pub fn test(&self, e: &PurchaseEntry) -> (r: bool)
        ensures
            r == holds(*self, *e),
    {
        match self {
            Predicate::SupplierIs(s) => e.supplier_id == *s,
            Predicate::DateFrom(d) => text_at_most(d.as_str(), e.date.as_str()),
            Predicate::DateTo(d) => text_at_most(e.date.as_str(), d.as_str()),
            Predicate::GstRateIs(g) => e.gst_rate == *g,
            Predicate::InvoiceContains(t) => contains_text(e.invoice_no.as_str(), t.as_str()),
            Predicate::StatusIs(s) => e.status == *s,
        }
    }
}

/// Decides whether an entry meets every condition of a list.
pub fn test_all(ps: &Vec<Predicate>, e: &PurchaseEntry) -> (r: bool)
    ensures
        r == all_hold(ps@, *e),
{
    let mut i: usize = 0;
    while i < ps.len()
        invariant
            i <= ps.len(),
            forall|j: int| 0 <= j < i ==> holds(#[trigger] ps@[j], *e),
        decreases ps.len() - i,
    {
        if !ps[i].test(e) {
            return false;
        }
        i = i + 1;
    }
    true
}

impl PurchaseFilters {
    /// The list of conditions that these filter fields stand for.
    pub fn conditions(&self) -> (ps: Vec<Predicate>)
        ensures
            ps@ == conditions_of(*self),
    {
        let mut ps: Vec<Predicate> = Vec::new();
        let ghost a = one(self.supplier_id, |s: i64| Predicate::SupplierIs(s));
        let ghost b = one(self.date_from, |d: String| Predicate::DateFrom(d));
        let ghost c = one(self.date_to, |d: String| Predicate::DateTo(d));
        let ghost d = one(self.gst_rate, |g: i64| Predicate::GstRateIs(g));
        let ghost g = one(self.invoice_no, |t: String| Predicate::InvoiceContains(t));
        if let Some(s) = self.supplier_id {
            ps.push(Predicate::SupplierIs(s));
        }
        assert(ps@ =~= a);
        if let Some(t) = &self.date_from {
            ps.push(Predicate::DateFrom(t.clone()));
        }
        assert(ps@ =~= a + b);
        if let Some(t) = &self.date_to {
            ps.push(Predicate::DateTo(t.clone()));
        }
        assert(ps@ =~= a + b + c);
        if let Some(r) = self.gst_rate {
            ps.push(Predicate::GstRateIs(r));
        }
        assert(ps@ =~= a + b + c + d);
        if let Some(t) = &self.invoice_no {
            ps.push(Predicate::InvoiceContains(t.clone()));
        }
        assert(ps@ =~= a + b + c + d + g);
        if let Some(t) = &self.status {
            ps.push(Predicate::StatusIs(t.clone()));
        }
        assert(ps@ =~= conditions_of(*self));
        ps
    }
}

} // verus!
