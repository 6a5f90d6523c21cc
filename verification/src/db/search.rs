//! Searching the issues for a text.

use vstd::prelude::*;

use crate::db::issues::keep_if;
use crate::db::{rows_view, Database, DbError, DbView};
use crate::models::{Issue, IssueView};
use crate::text::{contains_folded, contains_ignoring_ascii_case, fold_text, folded_chars};

verus! {

impl DbView {
    /// Whether some comment on the issue `id` holds `query`.
    pub open spec fn comment_holds(self, id: int, query: Seq<char>) -> bool {
        exists|k: int|
            0 <= k < self.comments.len() && (#[trigger] self.comments[k]).issue_id == id
                && contains_ignoring_ascii_case(self.comments[k].content, query)
    }

    /// Whether the title of `r`, its description or a comment on it holds
    /// `query` as a contiguous part, ASCII letters compared without regard to
    /// case. Every character of the query stands for itself.
    pub open spec fn matches_query(self, r: IssueView, query: Seq<char>) -> bool {
        ||| contains_ignoring_ascii_case(r.title, query)
        ||| r.description is Some && contains_ignoring_ascii_case(r.description->0, query)
        ||| self.comment_holds(r.id, query)
    }

    /// The issues that hold `query`, by falling number.
    pub open spec fn search_issues(self, query: Seq<char>) -> Seq<IssueView> {
        self.issues.reverse().filter(|r: IssueView| self.matches_query(r, query))
    }
}

impl Database {
    /// Whether some comment on the issue `id` holds the text `needle`, given
    /// with its capitals already mapped.
    fn comment_matches(&self, id: i64, needle: &Vec<char>, Ghost(query): Ghost<Seq<char>>) -> (r:
        bool)
        requires
            needle@ == fold_text(query),
        ensures
            r == self@.comment_holds(id as int, query),
    {
        let mut k: usize = 0;
        while k < self.comments.len()
            invariant
                k <= self.comments@.len(),
                needle@ == fold_text(query),
                forall|m: int|
                    0 <= m < k ==> !((#[trigger] self@.comments[m]).issue_id == id as int
                        && contains_ignoring_ascii_case(self@.comments[m].content, query)),
            decreases self.comments@.len() - k,
        {
            if self.comments[k].issue_id == id && contains_folded(
                self.comments[k].content.as_str(),
                needle,
            ) {
                assert(self@.comments[k as int].issue_id == id as int);
                return true;
            }
            k += 1;
        }
        false
    }

    /// The issues whose title, description or comments hold `query`, by
    /// falling number. ASCII letters are compared without regard to case, and
    /// every character of the query stands for itself.
    pub fn search_issues(&self, query: &str) -> (r: Result<Vec<Issue>, DbError>)
        ensures
            r matches Ok(v) && rows_view(v@) == self@.search_issues(query@),
    {
        let ghost db = self@;
        let ghost rev = self@.issues.reverse();
        let ghost p = |r: IssueView| db.matches_query(r, query@);
        let needle = folded_chars(query);
        let n: usize = self.issues.len();
        let mut out: Vec<Issue> = Vec::new();
        assert(rows_view(out@) =~= rev.subrange(0, 0).filter(p)) by {
            reveal(Seq::filter);
        }
        let mut j: usize = 0;
        while j < n
            invariant
                j <= n == self.issues@.len(),
                db == self@,
                rev == self@.issues.reverse(),
                needle@ == fold_text(query@),
                p == |r: IssueView| db.matches_query(r, query@),
                rows_view(out@) == rev.subrange(0, j as int).filter(p),
            decreases n - j,
        {
            let row = &self.issues[n - 1 - j];
            let in_title = contains_folded(row.title.as_str(), &needle);
            let in_description = match &row.description {
                Some(d) => contains_folded(d.as_str(), &needle),
                None => false,
            };
            let keep = in_title || in_description || self.comment_matches(
                row.id,
                &needle,
                Ghost(query@),
            );
            assert(rev[j as int] == row@);
            assert(rev.subrange(0, j + 1) =~= rev.subrange(0, j as int).push(row@));
            keep_if(&mut out, row, keep, Ghost(rev.subrange(0, j as int)), Ghost(p));
            j += 1;
        }
        assert(rev.subrange(0, j as int) =~= rev);
        Ok(out)
    }
}

} // verus!
