//! What the interactive mode keeps between two commands.
use crate::text;
use vstd::prelude::*;

verus! {

/// What the interactive mode keeps: nothing at first, and the page of the last search after
/// one.
#[derive(Debug, Clone, PartialEq, Eq)]
pub enum State {
    Init,
    Searched {
        query: String,
        cid: Option<String>,
        page_start: usize,
        offset: usize,
        total_count: Option<usize>,
        has_more: bool,
        col_offsets: Vec<usize>,
        next_col_offset: Option<usize>,
    },
}

/// What is known of the page of a search.
#[verifier::ext_equal]
pub struct PageModel {
    pub query: Seq<char>,
    pub cid: Option<Seq<char>>,
    pub page_start: usize,
    pub offset: usize,
    pub total_count: Option<usize>,
    pub has_more: bool,
    pub col_offsets: Seq<usize>,
    pub next_col_offset: Option<usize>,
}

#[verifier::ext_equal]
pub enum StateModel {
    Init,
    Searched(PageModel),
}

pub open spec fn opt_text(o: Option<String>) -> Option<Seq<char>> {
    match o {
        Some(s) => Some(s@),
        None => None,
    }
}

impl View for State {
    type V = StateModel;

    open spec fn view(&self) -> StateModel {
        match *self {
            State::Init => StateModel::Init,
            State::Searched {
                query,
                cid,
                page_start,
                offset,
                total_count,
                has_more,
                col_offsets,
                next_col_offset,
            } => StateModel::Searched(
                PageModel {
                    query: query@,
                    cid: opt_text(cid),
                    page_start,
                    offset,
                    total_count,
                    has_more,
                    col_offsets: col_offsets@,
                    next_col_offset,
                },
            ),
        }
    }
}

/// A page whose columns are shown from the first one on.
pub open spec fn fresh_page(
    query: Seq<char>,
    cid: Option<Seq<char>>,
    page_start: usize,
    fetched: usize,
    total_count: Option<usize>,
    has_more: bool,
) -> PageModel {
    PageModel {
        query,
        cid,
        page_start,
        offset: (page_start + fetched) as usize,
        total_count,
        has_more,
        col_offsets: seq![0],
        next_col_offset: None,
    }
}

impl StateModel {
    /// Whether a page has a first column that it is shown from.
    pub open spec fn wf(self) -> bool {
        match self {
            StateModel::Init => true,
            StateModel::Searched(p) => p.col_offsets.len() > 0,
        }
    }

    pub open spec fn col_offset(self) -> usize {
        match self {
            StateModel::Searched(p) if p.col_offsets.len() > 0 => p.col_offsets.last(),
            _ => 0,
        }
    }

    pub open spec fn pushed(self, next: usize) -> StateModel {
        match self {
            StateModel::Init => StateModel::Init,
            StateModel::Searched(p) => StateModel::Searched(
                PageModel { col_offsets: p.col_offsets.push(next), ..p },
            ),
        }
    }

    pub open spec fn can_prev(self) -> bool {
        match self {
            StateModel::Init => false,
            StateModel::Searched(p) => p.col_offsets.len() > 1,
        }
    }

    pub open spec fn popped(self) -> StateModel {
        match self {
            StateModel::Searched(p) if p.col_offsets.len() > 1 => StateModel::Searched(
                PageModel { col_offsets: p.col_offsets.drop_last(), ..p },
            ),
            _ => self,
        }
    }

    pub open spec fn with_next(self, next: Option<usize>) -> StateModel {
        match self {
            StateModel::Init => StateModel::Init,
            StateModel::Searched(p) => StateModel::Searched(
                PageModel { next_col_offset: next, ..p },
            ),
        }
    }

    pub open spec fn prompt(self) -> Seq<char> {
        match self {
            StateModel::Init => Seq::empty(),
            StateModel::Searched(p) => "["@ + p.query + "] "@,
        }
    }
}

/// Going on to further columns and back again leads back to the columns that were shown, and
/// at the first columns there is nothing to go back to.
pub proof fn law_columns_forth_and_back(s: StateModel, next: usize)
    requires
        s.wf(),
    ensures
        s is Searched ==> s.pushed(next).col_offset() == next && s.pushed(next).can_prev(),
        s is Searched ==> s.pushed(next).popped() == s,
        s.pushed(next).wf(),
        s.popped().wf(),
        s.with_next(Some(next)).wf(),
        !s.can_prev() ==> s.popped() == s,
{
    if let StateModel::Searched(p) = s {
        assert(p.col_offsets.push(next).drop_last() =~= p.col_offsets);
    }
}

impl State {
    /// The state at the start.
    pub fn new() -> (r: Self)
        ensures
            r@ == StateModel::Init,
            r@.wf(),
    {
        State::Init
    }

    /// The first page of a search, with so many results.
    pub fn to_searched(
        &mut self,
        query: String,
        cid: Option<String>,
        fetched_len: usize,
        total_count: Option<usize>,
        has_more: bool,
    )
        ensures
            final(self)@ == StateModel::Searched(
                fresh_page(query@, opt_text(cid), 0, fetched_len, total_count, has_more),
            ),
            final(self)@.wf(),
    {
        self.to_searched_at_page(query, cid, 0, fetched_len, total_count, has_more);
    }

    /// The page of a search that starts at a result, with so many results.
    pub fn to_searched_at_page(
        &mut self,
        query: String,
        cid: Option<String>,
        page_start: usize,
        fetched_len: usize,
        total_count: Option<usize>,
        has_more: bool,
    )
        requires
            page_start + fetched_len <= usize::MAX,
        ensures
            final(self)@ == StateModel::Searched(
                fresh_page(query@, opt_text(cid), page_start, fetched_len, total_count, has_more),
            ),
            final(self)@.wf(),
    {
        let mut col_offsets: Vec<usize> = Vec::new();
        col_offsets.push(0);
        proof {
            assert(col_offsets@ =~= seq![0usize]);
        }
        *self = State::Searched {
            query,
            cid,
            page_start,
            offset: page_start + fetched_len,
            total_count,
            has_more,
            col_offsets,
            next_col_offset: None,
        };
    }

    /// Forgets the search.
    pub fn clear(&mut self)
        ensures
            final(self)@ == StateModel::Init,
    {
        *self = State::Init;
    }

    /// The query of the last search.
    pub fn last_query(&self) -> (r: Option<&str>)
        ensures
            match self@ {
                StateModel::Init => r is None,
                StateModel::Searched(p) => r matches Some(q) && q@ == p.query,
            },
    {
        match self {
            State::Init => None,
            State::Searched { query, .. } => Some(query.as_str()),
        }
    }

    /// What stands before the prompt.
    pub fn prompt_string(&self) -> (r: String)
        ensures
            r@ == self@.prompt(),
    {
        match self {
            State::Init => String::new(),
            State::Searched { query, .. } => text::cat3("[", query.as_str(), "] "),
        }
    }

    /// The first column that is shown.
    pub fn current_col_offset(&self) -> (r: usize)
        ensures
            r == self@.col_offset(),
    {
        match self {
            State::Searched { col_offsets, .. } => {
                if col_offsets.len() > 0 {
                    col_offsets[col_offsets.len() - 1]
                } else {
                    0
                }
            },
            State::Init => 0,
        }
    }

    /// Goes on to further columns.
    pub fn push_col_offset(&mut self, next: usize)
        ensures
            final(self)@ == old(self)@.pushed(next),
    {
        match self {
            State::Searched { col_offsets, .. } => {
                col_offsets.push(next);
            },
            State::Init => {},
        }
    }

    /// Goes back to the columns before; gives the first of those that were shown.
    pub fn pop_col_offset(&mut self) -> (r: Option<usize>)
        ensures
            final(self)@ == old(self)@.popped(),
            r == if old(self)@.can_prev() {
                Some(old(self)@.col_offset())
            } else {
                None
            },
    {
        match self {
            State::Searched { col_offsets, .. } => {
                if col_offsets.len() > 1 {
                    col_offsets.pop()
                } else {
                    None
                }
            },
            State::Init => None,
        }
    }

    /// Whether there are columns before those that are shown.
    pub fn can_prev_cols(&self) -> (r: bool)
        ensures
            r == self@.can_prev(),
    {
        match self {
            State::Searched { col_offsets, .. } => col_offsets.len() > 1,
            State::Init => false,
        }
    }

    /// Keeps where further columns begin, if there are some.
    pub fn set_next_col_offset(&mut self, next: Option<usize>)
        ensures
            final(self)@ == old(self)@.with_next(next),
    {
        match self {
            State::Searched { next_col_offset, .. } => {
                *next_col_offset = next;
            },
            State::Init => {},
        }
    }
}

impl Default for State {
    fn default() -> (r: Self)
        ensures
            r@ == StateModel::Init,
    {
        State::new()
    }
}

} // verus!
