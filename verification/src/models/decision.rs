use vstd::prelude::*;

verus! {

/// Decision memory stores architectural reasoning: why a technology was chosen,
/// why a strategy changed.
#[derive(Clone, Debug)]
pub struct DecisionMemory {
    pub id: String,
    pub project_id: String,
    pub title: String,
    pub context: String,
    pub rationale: String,
    pub tradeoffs: String,
    pub related_files: Vec<String>,
    pub tags: Vec<String>,
    pub created_at: i64,
    pub updated_at: i64,
}

impl DecisionMemory {
    /// The text that this memory's embedding is computed from.
    pub fn embedding_text(&self) -> (r: String)
        ensures
            r@ == self.title@ + "\n"@ + self.rationale@,
    {
        let mut s = self.title.clone();
        s.append("\n");
        s.append(self.rationale.as_str());
        s
    }
}

} // verus!
