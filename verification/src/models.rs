//! The board menu's and the threads' data.
use vstd::prelude::*;

verus! {

/// A board of 5ch.
#[derive(Debug, Clone)]
pub struct Board {
    pub title: String,
    pub url: String,
}

/// A category of the board menu and its boards.
#[derive(Debug, Clone)]
pub struct Category {
    pub title: String,
    pub boards: Vec<Board>,
}

/// One post of a thread.
#[derive(Debug, Clone)]
pub struct Post {
    pub num: u32,
    pub name: String,
    pub date: String,
    pub message: String,
}

pub struct BoardView {
    pub title: Seq<char>,
    pub url: Seq<char>,
}

pub struct CategoryView {
    pub title: Seq<char>,
    pub boards: Seq<BoardView>,
}

pub struct PostView {
    pub num: u32,
    pub name: Seq<char>,
    pub date: Seq<char>,
    pub message: Seq<char>,
}

impl View for Board {
    type V = BoardView;

    open spec fn view(&self) -> BoardView {
        BoardView { title: self.title@, url: self.url@ }
    }
}

impl View for Category {
    type V = CategoryView;

    open spec fn view(&self) -> CategoryView {
        CategoryView { title: self.title@, boards: self.boards@.map_values(|b: Board| b@) }
    }
}

impl View for Post {
    type V = PostView;

    open spec fn view(&self) -> PostView {
        PostView { num: self.num, name: self.name@, date: self.date@, message: self.message@ }
    }
}

impl Category {
    /// A category with the given title and no boards yet.
    pub fn new(title: &str) -> (res: Self)
        ensures
            res.title@ == title@,
            res.boards@.len() == 0,
    {
        Category { title: title.to_owned(), boards: Vec::new() }
    }
}

} // verus!
