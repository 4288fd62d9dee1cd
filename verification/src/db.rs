//! The records that the widget keeps in its local database.
use vstd::prelude::*;

verus! {

/// A reference desk.
#[derive(Debug, Clone)]
pub struct Desk {
    pub id: i64,
    pub name: String,
}

/// A [`Desk`] with its name as a character sequence.
pub struct DeskView {
    pub id: i64,
    pub name: Seq<char>,
}

impl View for Desk {
    type V = DeskView;

    open spec fn view(&self) -> DeskView {
        DeskView { id: self.id, name: self.name@ }
    }
}

impl Desk {
    /// A copy with the same contents.
    pub fn duplicate(&self) -> (d: Desk)
        ensures
            d@ == self@,
    {
        Desk { id: self.id, name: self.name.clone() }
    }
}

/// A kind of question that the desk tallies.
#[derive(Debug, Clone)]
pub struct QuestionType {
    pub id: i64,
    pub name: String,
    pub description: String,
    pub sort_order: i64,
}

/// A [`QuestionType`] with its texts as character sequences.
pub struct QuestionTypeView {
    pub id: i64,
    pub name: Seq<char>,
    pub description: Seq<char>,
    pub sort_order: i64,
}

impl View for QuestionType {
    type V = QuestionTypeView;

    open spec fn view(&self) -> QuestionTypeView {
        QuestionTypeView {
            id: self.id,
            name: self.name@,
            description: self.description@,
            sort_order: self.sort_order,
        }
    }
}

impl QuestionType {
    /// A copy with the same contents.
    pub fn duplicate(&self) -> (q: QuestionType)
        ensures
            q@ == self@,
    {
        QuestionType {
            id: self.id,
            name: self.name.clone(),
            description: self.description.clone(),
            sort_order: self.sort_order,
        }
    }
}

/// The views of a list of question types.
pub open spec fn question_type_views(v: Seq<QuestionType>) -> Seq<QuestionTypeView> {
    v.map_values(|q: QuestionType| q@)
}

/// The views of a list of desks.
pub open spec fn desk_views(v: Seq<Desk>) -> Seq<DeskView> {
    v.map_values(|d: Desk| d@)
}

/// Copies of every question type, in order.
pub fn duplicate_question_types(v: &Vec<QuestionType>) -> (r: Vec<QuestionType>)
    ensures
        question_type_views(r@) == question_type_views(v@),
{
    let mut r: Vec<QuestionType> = Vec::new();
    let mut k: usize = 0;
    while k < v.len()
        invariant
            k <= v@.len(),
            r@.len() == k,
            forall|j: int| 0 <= j < k ==> #[trigger] r@[j]@ == v@[j]@,
        decreases v@.len() - k,
    {
        r.push(v[k].duplicate());
        k = k + 1;
    }
    assert(question_type_views(r@) =~= question_type_views(v@));
    r
}

/// Copies of every desk, in order.
pub fn duplicate_desks(v: &Vec<Desk>) -> (r: Vec<Desk>)
    ensures
        desk_views(r@) == desk_views(v@),
{
    let mut r: Vec<Desk> = Vec::new();
    let mut k: usize = 0;
    while k < v.len()
        invariant
            k <= v@.len(),
            r@.len() == k,
            forall|j: int| 0 <= j < k ==> #[trigger] r@[j]@ == v@[j]@,
        decreases v@.len() - k,
    {
        r.push(v[k].duplicate());
        k = k + 1;
    }
    assert(desk_views(r@) =~= desk_views(v@));
    r
}

/// Tally counts over the recent periods.
#[derive(Debug, Clone, Copy, PartialEq, Eq)]
pub struct Stats {
    pub last_hour: i64,
    pub today: i64,
    pub week: i64,
    pub month: i64,
    pub year: i64,
}

/// Counts for a widget that has recorded nothing.
pub fn empty_stats() -> (s: Stats)
    ensures
        s.last_hour == 0 && s.today == 0 && s.week == 0 && s.month == 0 && s.year == 0,
{
    Stats { last_hour: 0, today: 0, week: 0, month: 0, year: 0 }
}

/// A tally recorded locally, waiting to be sent to the server.
#[derive(Debug, Clone)]
pub struct QueuedTally {
    pub id: i64,
    pub desk_id: i64,
    pub question_type_id: i64,
    pub created: String,
}

/// A [`QueuedTally`] with its time stamp as a character sequence.
pub struct QueuedTallyView {
    pub id: i64,
    pub desk_id: i64,
    pub question_type_id: i64,
    pub created: Seq<char>,
}

impl View for QueuedTally {
    type V = QueuedTallyView;

    open spec fn view(&self) -> QueuedTallyView {
        QueuedTallyView {
            id: self.id,
            desk_id: self.desk_id,
            question_type_id: self.question_type_id,
            created: self.created@,
        }
    }
}

impl QueuedTally {
    /// A copy with the same contents.
    pub fn duplicate(&self) -> (t: QueuedTally)
        ensures
            t@ == self@,
    {
        QueuedTally {
            id: self.id,
            desk_id: self.desk_id,
            question_type_id: self.question_type_id,
            created: self.created.clone(),
        }
    }
}

/// The views of a list of queued tallies.
pub open spec fn tally_views(v: Seq<QueuedTally>) -> Seq<QueuedTallyView> {
    v.map_values(|t: QueuedTally| t@)
}

/// The position that a question type is stored with: its own sort order,
/// or its place in the list when that is zero.
pub open spec fn stored_sort_order(q: QuestionTypeView, index: int) -> int {
    if q.sort_order == 0 {
        index
    } else {
        q.sort_order as int
    }
}

/// The rows that replace the stored question types: each type as given,
/// with a zero sort order replaced by its place in the list.
pub fn question_type_rows(types: &Vec<QuestionType>) -> (rows: Vec<QuestionType>)
    requires
        types@.len() <= i64::MAX,
    ensures
        rows@.len() == types@.len(),
        forall|i: int|
            0 <= i < types@.len() ==> {
                let r = #[trigger] rows@[i]@;
                let t = types@[i]@;
                &&& r.id == t.id
                &&& r.name == t.name
                &&& r.description == t.description
                &&& r.sort_order == stored_sort_order(t, i)
            },
{
    let mut rows: Vec<QuestionType> = Vec::new();
    let mut k: usize = 0;
    while k < types.len()
        invariant
            k <= types@.len() <= i64::MAX,
            rows@.len() == k,
            forall|i: int|
                0 <= i < k ==> {
                    let r = #[trigger] rows@[i]@;
                    let t = types@[i]@;
                    &&& r.id == t.id
                    &&& r.name == t.name
                    &&& r.description == t.description
                    &&& r.sort_order == stored_sort_order(t, i)
                },
        decreases types@.len() - k,
    {
        let mut row = types[k].duplicate();
        if row.sort_order == 0 {
            row.sort_order = k as i64;
        }
        rows.push(row);
        k = k + 1;
    }
    rows
}

} // verus!
