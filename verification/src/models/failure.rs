use vstd::prelude::*;

verus! {

/// Failure memory stores incidents and debugging patterns.
#[derive(Clone, Debug)]
pub struct FailureMemory {
    pub id: String,
    pub project_id: String,
    pub incident: String,
    pub root_cause: String,
    pub fix: String,
    pub prevention: String,
    pub severity: u8,
    pub tags: Vec<String>,
    pub created_at: i64,
    pub updated_at: i64,
}

impl FailureMemory {
    /// The text that this memory's embedding is computed from.
    pub fn embedding_text(&self) -> (r: String)
        ensures
            r@ == self.incident@ + "\n"@ + self.root_cause@,
    {
        let mut s = self.incident.clone();
        s.append("\n");
        s.append(self.root_cause.as_str());
        s
    }
}

} // verus!
