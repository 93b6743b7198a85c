use vstd::prelude::*;

verus! {

/// Episodic memory stores task history: debugging sessions, refactors, migrations,
/// deployments, feature implementations. `importance` holds the bits of a 32-bit
/// IEEE 754 number.
#[derive(Clone, Debug)]
pub struct EpisodicMemory {
    pub id: String,
    pub project_id: String,
    pub session_id: String,
    pub summary: String,
    pub content: String,
    pub files_touched: Vec<String>,
    pub related_commits: Vec<String>,
    pub importance: u32,
    pub tags: Vec<String>,
    pub created_at: i64,
    pub updated_at: i64,
}

impl EpisodicMemory {
    /// The text that this memory's embedding is computed from, on the write path
    /// and when embeddings are rebuilt alike.
    pub fn embedding_text(&self) -> (r: String)
        ensures
            r@ == self.summary@ + "\n"@ + self.content@,
    {
        let mut s = self.summary.clone();
        s.append("\n");
        s.append(self.content.as_str());
        s
    }
}

} // verus!
