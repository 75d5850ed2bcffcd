use vstd::prelude::*;

verus! {

/// One line of the export, in column order.
#[derive(Clone, Debug)]
pub struct Row {
    pub user: String,
    pub email: String,
    pub client: Option<String>,
    pub project: Option<String>,
    pub description: String,
    pub start_date: String,
    pub start_time: String,
    pub duration: String,
}

/// The texts of a row.
pub struct RowView {
    pub user: Seq<char>,
    pub email: Seq<char>,
    pub client: Option<Seq<char>>,
    pub project: Option<Seq<char>>,
    pub description: Seq<char>,
    pub start_date: Seq<char>,
    pub start_time: Seq<char>,
    pub duration: Seq<char>,
}

pub open spec fn opt_text(o: Option<String>) -> Option<Seq<char>> {
    match o {
        Some(s) => Some(s@),
        None => None,
    }
}

impl View for Row {
    type V = RowView;

    open spec fn view(&self) -> RowView {
        RowView {
            user: self.user@,
            email: self.email@,
            client: opt_text(self.client),
            project: opt_text(self.project),
            description: self.description@,
            start_date: self.start_date@,
            start_time: self.start_time@,
            duration: self.duration@,
        }
    }
}

} // verus!
