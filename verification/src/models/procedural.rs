use crate::text;
use vstd::prelude::*;

verus! {

/// Procedural memory stores workflows and coding conventions.
#[derive(Clone, Debug)]
pub struct ProceduralMemory {
    pub id: String,
    pub project_id: String,
    pub workflow_name: String,
    pub steps: Vec<String>,
    pub related_tools: Vec<String>,
    pub tags: Vec<String>,
    pub created_at: i64,
    pub updated_at: i64,
}

impl ProceduralMemory {
    /// The text that this memory's embedding is computed from.
    pub fn embedding_text(&self) -> (r: String)
        ensures
            r@ == self.workflow_name@ + "\n"@ + text::joined(text::texts(self.steps@), " "@),
    {
        let mut s = self.workflow_name.clone();
        s.append("\n");
        s.append(text::join(&self.steps, " ").as_str());
        s
    }
}

} // verus!
