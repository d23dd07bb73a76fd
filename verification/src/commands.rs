//! The commands that expand a document for the frontend.

use crate::types::views_of;
use crate::variable_map::{
    insert_all, lemma_bindings_of_list, lemma_insert_all_push, lemma_insert_all_union,
    VariableMap,
};
use crate::variable_processor::{expanded, VariableProcessor};
use vstd::prelude::*;

verus! {

/// Expands `content` after binding each of `global_variables` in the
/// processor's store. The bindings stay in the store after the call; they
/// are no overlay for this one document.
pub fn process_markdown(
    processor: &mut VariableProcessor,
    content: String,
    global_variables: VariableMap,
) -> (res: Result<String, String>)
    ensures
        final(processor)@ == old(processor)@.union_prefer_right(global_variables@),
        res matches Ok(text) && text@ == expanded(content@, final(processor)@),
{
    let variables = global_variables.to_vec();
    let mut i: usize = 0;
    while i < variables.len()
        invariant
            i <= variables.len(),
            processor@ == insert_all(old(processor)@, views_of(variables@).take(i as int)),
        decreases variables.len() - i,
    {
        proof {
            let all = views_of(variables@);
            assert(all.take(i + 1) =~= all.take(i as int).push(all[i as int]));
            lemma_insert_all_push(old(processor)@, all.take(i as int), all[i as int]);
        }
        processor.set_global_variable(variables[i].name.clone(), variables[i].value.clone());
        i = i + 1;
    }
    proof {
        assert(views_of(variables@).take(variables.len() as int) =~= views_of(variables@));
        lemma_bindings_of_list(views_of(variables@), global_variables@);
        lemma_insert_all_union(old(processor)@, views_of(variables@));
    }
    Ok(processor.process_variables(content.as_str()))
}

/// The expanded form of `content`; the same as `process_markdown`.
pub fn get_expanded_markdown(
    processor: &mut VariableProcessor,
    content: String,
    global_variables: VariableMap,
) -> (res: Result<String, String>)
    ensures
        final(processor)@ == old(processor)@.union_prefer_right(global_variables@),
        res matches Ok(text) && text@ == expanded(content@, final(processor)@),
{
    process_markdown(processor, content, global_variables)
}

} // verus!
