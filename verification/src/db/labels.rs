//! Labels: texts on an issue, each at most once.

use vstd::prelude::*;

use crate::db::{issue_ids, Database, DbError, DbView};
use crate::models::{Label, LabelView};
use crate::seqs::{lemma_filter_all, lemma_filter_out_one};
use crate::text::{
    lemma_text_lt_total, lemma_text_lt_transitive, text_before, text_eq, text_lt, texts_rise,
    texts_view,
};

verus! {

impl DbView {
    /// What `add_label` answers: the issue must exist, and a label that the
    /// issue carries already is not added again.
    pub open spec fn add_label_result(self, id: int, label: Seq<char>) -> Result<bool, DbError> {
        if !self.has_issue(id) {
            Err(DbError::ForeignKey)
        } else {
            Ok(!self.has_label(id, label))
        }
    }

    /// The store after `add_label`: one more label where the answer is
    /// `Ok(true)`, and unchanged otherwise.
    pub open spec fn add_label(self, id: int, label: Seq<char>) -> DbView {
        if self.add_label_result(id, label) == Ok::<bool, DbError>(true) {
            DbView { labels: self.labels.push(LabelView { issue_id: id, label }), ..self }
        } else {
            self
        }
    }

    /// The store without `label` on the issue `id`.
    pub open spec fn remove_label(self, id: int, label: Seq<char>) -> DbView {
        DbView {
            labels: self.labels.filter(|l: LabelView| l != (LabelView { issue_id: id, label })),
            ..self
        }
    }
}

impl Database {
    /// Where `label` stands on the issue `id`, if it does.
    fn label_index(&self, id: i64, label: &str) -> (r: Option<usize>)
        ensures
            match r {
                Some(i) => i < self@.labels.len() && self@.labels[i as int] == (LabelView {
                    issue_id: id as int,
                    label: label@,
                }),
                None => !self@.has_label(id as int, label@),
            },
    {
        let ghost want = LabelView { issue_id: id as int, label: label@ };
        let mut i: usize = 0;
        while i < self.labels.len()
            invariant
                i <= self.labels@.len(),
                want == (LabelView { issue_id: id as int, label: label@ }),
                forall|k: int| 0 <= k < i ==> self@.labels[k] != want,
            decreases self.labels@.len() - i,
        {
            if self.labels[i].issue_id == id && text_eq(self.labels[i].label.as_str(), label) {
                assert(self@.labels[i as int] == want);
                return Some(i);
            }
            i += 1;
        }
        None
    }

    /// Puts `label` on the issue `issue_id`. Says `Ok(true)` where the label
    /// is new on the issue and `Ok(false)` where the issue carried it
    /// already.
    pub fn add_label(&mut self, issue_id: i64, label: &str) -> (r: Result<bool, DbError>)
        requires
            old(self).wf(),
        ensures
            final(self).wf(),
            r == old(self)@.add_label_result(issue_id as int, label@),
            final(self)@ == old(self)@.add_label(issue_id as int, label@),
    {
        if self.issue_index(issue_id).is_none() {
            return Err(DbError::ForeignKey);
        }
        if self.label_index(issue_id, label).is_some() {
            return Ok(false);
        }
        self.labels.push(Label { issue_id, label: label.to_owned() });
        proof {
            let before = old(self)@;
            let row = LabelView { issue_id: issue_id as int, label: label@ };
            assert(self@.labels =~= before.labels.push(row));
            assert forall|i: int, j: int| 0 <= i < j < self@.labels.len() implies #[trigger] self@.labels[i]
                != #[trigger] self@.labels[j] by {
                if j < before.labels.len() {
                    assert(before.labels[i] != before.labels[j]);
                } else {
                    assert(before.labels.contains(before.labels[i]));
                }
            }
        }
        Ok(true)
    }

    /// Takes `label` off the issue `issue_id` and says whether the issue
    /// carried it.
    pub fn remove_label(&mut self, issue_id: i64, label: &str) -> (r: Result<bool, DbError>)
        requires
            old(self).wf(),
        ensures
            final(self).wf(),
            r == Ok::<bool, DbError>(old(self)@.has_label(issue_id as int, label@)),
            final(self)@ == old(self)@.remove_label(issue_id as int, label@),
    {
        let ghost before = old(self)@;
        let ghost want = LabelView { issue_id: issue_id as int, label: label@ };
        let ghost p = |l: LabelView| l != want;
        match self.label_index(issue_id, label) {
            Some(i) => {
                self.labels.remove(i);
                proof {
                    assert(self@.labels =~= before.labels.remove(i as int));
                    assert forall|j: int| 0 <= j < before.labels.len() && j != i implies p(
                        #[trigger] before.labels[j],
                    ) by {
                        if j < i {
                            assert(before.labels[j] != before.labels[i as int]);
                        } else {
                            assert(before.labels[i as int] != before.labels[j]);
                        }
                    }
                    lemma_filter_out_one(before.labels, i as int, p);
                    assert forall|a: int, b: int| 0 <= a < b < self@.labels.len() implies #[trigger] self@.labels[a]
                        != #[trigger] self@.labels[b] by {
                        let a2 = if a < i { a } else { a + 1 };
                        let b2 = if b < i { b } else { b + 1 };
                        assert(before.labels[a2] != before.labels[b2]);
                    }
                    assert forall|k: int| 0 <= k < self@.labels.len() implies issue_ids(
                        self@.issues,
                    ).contains((#[trigger] self@.labels[k]).issue_id) by {
                        let k2 = if k < i { k } else { k + 1 };
                        assert(self@.labels[k] == before.labels[k2]);
                    }
                }
                Ok(true)
            },
            None => {
                proof {
                    assert forall|j: int| 0 <= j < before.labels.len() implies p(
                        #[trigger] before.labels[j],
                    ) by {
                        assert(before.labels.contains(before.labels[j]));
                    }
                    lemma_filter_all(before.labels, p);
                }
                Ok(false)
            },
        }
    }

    /// The labels of the issue `issue_id`, in the order of a dictionary.
    pub fn get_labels(&self, issue_id: i64) -> (r: Result<Vec<String>, DbError>)
        requires
            self.wf(),
        ensures
            r matches Ok(v) && texts_rise(texts_view(v@)) && forall|t: Seq<char>|
                texts_view(v@).contains(t) <==> self@.has_label(issue_id as int, t),
    {
        let ghost labels = self@.labels;
        let ghost id = issue_id as int;
        let mut out: Vec<String> = Vec::new();
        let mut i: usize = 0;
        while i < self.labels.len()
            invariant
                self.wf(),
                i <= self.labels@.len(),
                labels == self@.labels,
                id == issue_id as int,
                texts_rise(texts_view(out@)),
                forall|t: Seq<char>|
                    texts_view(out@).contains(t) <==> exists|k: int|
                        0 <= k < i && #[trigger] labels[k] == (LabelView { issue_id: id, label: t }),
            decreases self.labels@.len() - i,
        {
            if self.labels[i].issue_id == issue_id {
                let ghost x = self.labels[i as int].label@;
                let ghost before = texts_view(out@);
                assert(labels[i as int] == (LabelView { issue_id: id, label: x }));
                assert(!before.contains(x)) by {
                    if before.contains(x) {
                        let k = choose|k: int|
                            0 <= k < i && #[trigger] labels[k] == (LabelView { issue_id: id, label: x });
                        assert(labels[k] != labels[i as int]);
                    }
                }
                let mut at: usize = 0;
                while at < out.len() && text_before(out[at].as_str(), self.labels[i].label.as_str())
                    invariant
                        at <= out@.len(),
                        i < self.labels@.len(),
                        x == self.labels[i as int].label@,
                        forall|k: int| 0 <= k < at ==> text_lt(#[trigger] out@[k]@, x),
                    decreases out@.len() - at,
                {
                    at += 1;
                }
                out.insert(at, self.labels[i].label.clone());
                proof {
                    let after = texts_view(out@);
                    assert(after =~= before.insert(at as int, x));
                    assert forall|a: int, b: int| 0 <= a < b < after.len() implies text_lt(
                        #[trigger] after[a],
                        #[trigger] after[b],
                    ) by {
                        if b < at {
                            assert(after[a] == before[a] && after[b] == before[b]);
                        } else if b == at {
                            assert(after[a] == before[a]);
                            assert(text_lt(before[a], x));
                        } else if a == at {
                            assert(after[b] == before[b - 1]);
                            if at as int == b - 1 {
                                assert(before.contains(before[at as int]));
                                lemma_text_lt_total(before[at as int], x);
                            } else {
                                assert(before.contains(before[at as int]));
                                lemma_text_lt_total(before[at as int], x);
                                assert(text_lt(before[at as int], before[b - 1]));
                                lemma_text_lt_transitive(x, before[at as int], before[b - 1]);
                            }
                        } else if a < at {
                            assert(after[a] == before[a] && after[b] == before[b - 1]);
                        } else {
                            assert(after[a] == before[a - 1] && after[b] == before[b - 1]);
                        }
                    }
                    assert forall|t: Seq<char>| after.contains(t) <==> exists|k: int|
                        0 <= k < i + 1 && #[trigger] labels[k] == (LabelView {
                            issue_id: id,
                            label: t,
                        }) by {
                        if after.contains(t) {
                            let m = choose|m: int| 0 <= m < after.len() && after[m] == t;
                            if m < at {
                                assert(before[m] == t);
                                assert(before.contains(t));
                            } else if m > at {
                                assert(before[m - 1] == t);
                                assert(before.contains(t));
                            }
                        }
                        if exists|k: int|
                            0 <= k < i + 1 && #[trigger] labels[k] == (LabelView {
                                issue_id: id,
                                label: t,
                            }) {
                            let k = choose|k: int|
                                0 <= k < i + 1 && #[trigger] labels[k] == (LabelView {
                                    issue_id: id,
                                    label: t,
                                });
                            if k < i {
                                assert(before.contains(t));
                                let m = choose|m: int| 0 <= m < before.len() && before[m] == t;
                                let m2 = if m < at { m } else { m + 1 };
                                assert(after[m2] == t);
                            } else {
                                assert(after[at as int] == t);
                            }
                        }
                    }
                }
            } else {
                proof {
                    assert forall|t: Seq<char>| texts_view(out@).contains(t) <==> exists|k: int|
                        0 <= k < i + 1 && #[trigger] labels[k] == (LabelView {
                            issue_id: id,
                            label: t,
                        }) by {
                        if exists|k: int|
                            0 <= k < i + 1 && #[trigger] labels[k] == (LabelView {
                                issue_id: id,
                                label: t,
                            }) {
                            let k = choose|k: int|
                                0 <= k < i + 1 && #[trigger] labels[k] == (LabelView {
                                    issue_id: id,
                                    label: t,
                                });
                            assert(k < i);
                        }
                    }
                }
            }
            i += 1;
        }
        proof {
            assert forall|t: Seq<char>| texts_view(out@).contains(t) <==> self@.has_label(
                issue_id as int,
                t,
            ) by {
                let want = LabelView { issue_id: id, label: t };
                if self@.has_label(id, t) {
                    let k = choose|k: int| 0 <= k < labels.len() && labels[k] == want;
                    assert(labels[k] == want);
                }
                if texts_view(out@).contains(t) {
                    let k = choose|k: int| 0 <= k < i && #[trigger] labels[k] == want;
                    assert(labels.contains(want));
                }
            }
        }
        Ok(out)
    }
}

} // verus!
