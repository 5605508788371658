use vstd::prelude::*;

verus! {

/// A project row: the unit of ownership. Each project belongs to exactly one
/// user; projects are immutable for this core.
pub struct Project {
    pub id: i64,
    pub user_id: String,
}

pub ghost struct ProjectView {
    pub id: int,
    pub user_id: Seq<char>,
}

impl View for Project {
    type V = ProjectView;

    open spec fn view(&self) -> ProjectView {
        ProjectView { id: self.id as int, user_id: self.user_id@ }
    }
}

/// A persisted conversation row. The row id is assigned at persistence time
/// and may change across replace-saves; the thread id is the caller's stable
/// correlation key. `exchanges` holds the serialized transport blob.
#[derive(Debug)]
pub struct ConversationRow {
    pub id: i64,
    pub thread_id: u128,
    pub title: String,
    pub exchanges: String,
    pub project_id: i64,
    pub created_at: i64,
}

pub ghost struct RowView {
    pub id: int,
    pub thread_id: u128,
    pub title: Seq<char>,
    pub exchanges: Seq<char>,
    pub project_id: int,
    pub created_at: int,
}

impl View for ConversationRow {
    type V = RowView;

    open spec fn view(&self) -> RowView {
        RowView {
            id: self.id as int,
            thread_id: self.thread_id,
            title: self.title@,
            exchanges: self.exchanges@,
            project_id: self.project_id as int,
            created_at: self.created_at as int,
        }
    }
}

/// The relational state every operation runs against: the `projects` and
/// `conversations` tables plus the row-id allocator. A handle to it is passed
/// explicitly into each operation; there is no process-wide state.
pub struct Database {
    pub projects: Vec<Project>,
    pub conversations: Vec<ConversationRow>,
    pub next_row_id: i64,
}

pub ghost struct DatabaseView {
    pub projects: Seq<ProjectView>,
    pub conversations: Seq<RowView>,
    pub next_row_id: int,
}

impl View for Database {
    type V = DatabaseView;

    open spec fn view(&self) -> DatabaseView {
        DatabaseView {
            projects: self.projects@.map_values(|p: Project| p@),
            conversations: self.conversations@.map_values(|r: ConversationRow| r@),
            next_row_id: self.next_row_id as int,
        }
    }
}

/// The ownership filter: the one join condition tying a conversation's
/// project to the acting user. Every read, write, and delete applies it.
pub open spec fn owner_of(projects: Seq<ProjectView>, project_id: int, user_id: Seq<char>) -> bool {
    exists|i: int|
        0 <= i < projects.len() && projects[i].id == project_id && projects[i].user_id == user_id
}

impl DatabaseView {
    pub open spec fn owns_project(self, project_id: int, user_id: Seq<char>) -> bool {
        owner_of(self.projects, project_id, user_id)
    }

    pub open spec fn has_project(self, project_id: int) -> bool {
        exists|i: int| 0 <= i < self.projects.len() && #[trigger] self.projects[i].id == project_id
    }

    /// Well-formedness: row and project ids are unique, and every row id lies
    /// below the allocator cursor, so a fresh insert never collides.
    pub open spec fn wf(self) -> bool {
        &&& forall|i: int, j: int|
            0 <= i < j < self.conversations.len() ==> #[trigger] self.conversations[i].id
                != #[trigger] self.conversations[j].id
        &&& forall|i: int|
            0 <= i < self.conversations.len() ==> #[trigger] self.conversations[i].id
                < self.next_row_id
        &&& forall|i: int, j: int|
            0 <= i < j < self.projects.len() ==> #[trigger] self.projects[i].id
                != #[trigger] self.projects[j].id
    }
}

/// Decide the ownership filter for one project and user.
pub fn owner_check(db: &Database, project_id: i64, user_id: &str) -> (r: bool)
    ensures
        r == db@.owns_project(project_id as int, user_id@),
{
    let user: String = user_id.to_owned();
    let mut i: usize = 0;
    while i < db.projects.len()
        invariant
            i <= db.projects.len(),
            user@ == user_id@,
            forall|k: int|
                0 <= k < i ==> !(#[trigger] db@.projects[k].id == project_id as int
                    && db@.projects[k].user_id == user_id@),
        decreases db.projects.len() - i,
    {
        if db.projects[i].id == project_id && db.projects[i].user_id == user {
            proof {
                assert(db@.projects[i as int].id == project_id as int && db@.projects[
                    i as int
                ].user_id == user_id@);
            }
            return true;
        }
        i += 1;
    }
    false
}

impl Database {
    /// An empty store: no projects, no conversations, row ids starting at 1.
    pub fn new() -> (r: Database)
        ensures
            r@.wf(),
            r@.projects.len() == 0,
            r@.conversations.len() == 0,
            r@.next_row_id == 1,
    {
        let r = Database { projects: Vec::new(), conversations: Vec::new(), next_row_id: 1 };
        proof {
            assert(r@.projects =~= Seq::<ProjectView>::empty());
            assert(r@.conversations =~= Seq::<RowView>::empty());
        }
        r
    }

    /// Register a project under its owning user. Returns false, changing
    /// nothing, if the project id is already taken.
    pub fn add_project(&mut self, project_id: i64, user_id: &str) -> (r: bool)
        requires
            old(self)@.wf(),
        ensures
            final(self)@.wf(),
            r == !old(self)@.has_project(project_id as int),
            r ==> final(self)@ == (DatabaseView {
                projects: old(self)@.projects.push(
                    ProjectView { id: project_id as int, user_id: user_id@ },
                ),
                conversations: old(self)@.conversations,
                next_row_id: old(self)@.next_row_id,
            }),
            !r ==> *final(self) == *old(self),
    {
        let ghost init = *self;
        let mut i: usize = 0;
        while i < self.projects.len()
            invariant
                *self == init,
                init == *old(self),
                init@.wf(),
                i <= self.projects.len(),
                forall|k: int| 0 <= k < i ==> #[trigger] self@.projects[k].id != project_id as int,
            decreases self.projects.len() - i,
        {
            if self.projects[i].id == project_id {
                proof {
                    assert(self@.projects[i as int].id == project_id as int);
                }
                return false;
            }
            i += 1;
        }
        self.projects.push(Project { id: project_id, user_id: user_id.to_owned() });
        proof {
            assert(self@.projects =~= old(self)@.projects.push(
                ProjectView { id: project_id as int, user_id: user_id@ },
            ));
        }
        true
    }
}

} // verus!
