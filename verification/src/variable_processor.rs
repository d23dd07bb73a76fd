//! The variable processor: the store of global variables, and the
//! operations that parse, expand, import and export against it.

use crate::declarations::{parse_declarations, parsed_declarations, parsed_remainder};
use crate::substitution::{
    are_placeholder_spans, is_bound_at, is_placeholder, lemma_lone_placeholder,
    lemma_shadowed_global_is_ignored, lemma_unbound_placeholders_stay, placeholder_spans,
    replace_placeholders, resolved, substituted, PLACEHOLDER_PATTERN,
};
use crate::types::{views_of, Variable, VariableSet};
use crate::text::trimmed;
use crate::variable_map::{
    bindings, binds, insert_all, lemma_bindings_of_list, lemma_insert_all_keys, lists_exactly,
    VariableMap,
};
use vstd::prelude::*;

verus! {

/// Why a text could not be read as a variable set.
#[derive(Debug)]
pub struct ParseError {
    pub message: String,
}

impl ParseError {
    /// The message of the error.
    pub fn to_string(&self) -> (res: String)
        ensures
            res@ == self.message@,
    {
        self.message.clone()
    }
}

/// What a document expands to against the global variables `globals`: its
/// remainder with each placeholder resolved, first against the document's
/// own declarations, of which the last one of a name counts, then against
/// `globals`.
pub open spec fn expanded(content: Seq<char>, globals: Map<Seq<char>, Seq<char>>) -> Seq<char> {
    substituted(
        parsed_remainder(content),
        placeholder_spans(parsed_remainder(content)),
        bindings(parsed_declarations(content)),
        globals,
    )
}

/// The store of global variables with the operations on documents.
#[derive(Debug)]
pub struct VariableProcessor {
    global_variables: VariableMap,
}

impl View for VariableProcessor {
    type V = Map<Seq<char>, Seq<char>>;

    /// The global variables: the mapping from each name to its value.
    closed spec fn view(&self) -> Map<Seq<char>, Seq<char>> {
        self.global_variables@
    }
}

impl VariableProcessor {
    /// A processor without global variables.
    pub fn new() -> (res: Self)
        ensures
            res@ == Map::<Seq<char>, Seq<char>>::empty(),
    {
        VariableProcessor { global_variables: VariableMap::new() }
    }

    /// Binds the global variable `name` to `value`, whether or not it was
    /// bound before.
    pub fn set_global_variable(&mut self, name: String, value: String)
        ensures
            final(self)@ == old(self)@.insert(name@, value@),
    {
        self.global_variables.insert(name, value);
    }

    /// The value of the global variable `name`, if it is bound.
    pub fn get_global_variable(&self, name: &str) -> (res: Option<String>)
        ensures
            match res {
                Some(value) => self@.contains_key(name@) && value@ == self@[name@],
                None => !self@.contains_key(name@),
            },
    {
        match self.global_variables.get(name) {
            Some(value) => Some(value.clone()),
            None => None,
        }
    }

    /// A copy of all global variables. The copy is independent of the
    /// store: changing one leaves the other as it is.
    pub fn get_all_global_variables(&self) -> (res: VariableMap)
        ensures
            res@ == self@,
    {
        self.global_variables.clone()
    }

    /// The declarations of `content`, in document order, and `content`
    /// without its declaration and include lines.
    pub fn parse_variables_from_markdown(&self, content: &str) -> (res: (Vec<Variable>, String))
        ensures
            views_of(res.0@) == parsed_declarations(content@),
            res.1@ == parsed_remainder(content@),
    {
        parse_declarations(content)
    }

    /// Expands the placeholders of `content`: the document without its
    /// declaration lines, each placeholder replaced by the value that the
    /// document declares for its name, else by the global one, else left as
    /// it is.
    pub fn process_variables(&self, content: &str) -> (res: String)
        ensures
            res@ == expanded(content@, self@),
            are_placeholder_spans(
                parsed_remainder(content@),
                placeholder_spans(parsed_remainder(content@)),
            ),
    {
        let (declarations, remainder) = parse_declarations(content);
        let mut locals = VariableMap::new();
        locals.insert_each(&declarations);
        replace_placeholders(
            PLACEHOLDER_PATTERN,
            remainder.as_str(),
            &locals,
            &self.global_variables,
        )
    }

    /// Merges a decoded variable set into the global variables. `decoded`
    /// is what decoding the text gave: on a set, each of its variables is
    /// bound in turn, a later one overwriting an earlier one of the same
    /// name; on an error nothing changes and the error is returned.
    pub fn load_variables_from_yaml(&mut self, decoded: Result<VariableSet, ParseError>) -> (res:
        Result<(), ParseError>)
        ensures
            match decoded {
                Ok(set) => res is Ok && final(self)@ == insert_all(old(self)@, set@),
                Err(error) => res == Err::<(), ParseError>(error) && final(self)@ == old(self)@,
            },
    {
        match decoded {
            Ok(set) => {
                self.global_variables.insert_each(&set.variables);
                Ok(())
            },
            Err(error) => Err(error),
        }
    }

    /// The variable set to write out: each global variable once, with its
    /// value, in no order that callers may rely on.
    pub fn export_variables_to_yaml(&self) -> (res: VariableSet)
        ensures
            lists_exactly(res@, self@),
            self@.dom().finite(),
            res@.len() == self@.dom().len(),
    {
        VariableSet { variables: self.global_variables.to_vec() }
    }
}

/// Importing what a store exports into an empty store gives a store with
/// the same variables, whatever the order of the exported set.
pub proof fn lemma_export_import_round_trip(
    store: Map<Seq<char>, Seq<char>>,
    exported: Seq<(Seq<char>, Seq<char>)>,
)
    requires
        lists_exactly(exported, store),
    ensures
        insert_all(Map::empty(), exported) == store,
{
    lemma_bindings_of_list(exported, store);
}

/// A document whose remainder is one placeholder expands to what the
/// placeholder resolves to.
pub proof fn lemma_lone_placeholder_document(
    content: Seq<char>,
    globals: Map<Seq<char>, Seq<char>>,
)
    requires
        are_placeholder_spans(
            parsed_remainder(content),
            placeholder_spans(parsed_remainder(content)),
        ),
        is_placeholder(parsed_remainder(content)),
    ensures
        expanded(content, globals) == resolved(
            parsed_remainder(content),
            parsed_remainder(content).subrange(2, parsed_remainder(content).len() - 2),
            bindings(parsed_declarations(content)),
            globals,
        ),
{
    lemma_lone_placeholder(
        parsed_remainder(content),
        placeholder_spans(parsed_remainder(content)),
        bindings(parsed_declarations(content)),
        globals,
    );
}

/// Precedence: where the document declares the name of its one
/// placeholder, the placeholder expands to the declared value, whatever
/// the global variables hold.
pub proof fn lemma_declared_value_is_substituted(
    content: Seq<char>,
    globals: Map<Seq<char>, Seq<char>>,
    name: Seq<char>,
)
    requires
        are_placeholder_spans(
            parsed_remainder(content),
            placeholder_spans(parsed_remainder(content)),
        ),
        is_placeholder(parsed_remainder(content)),
        name == trimmed(
            parsed_remainder(content).subrange(2, parsed_remainder(content).len() - 2),
        ),
        binds(parsed_declarations(content), name),
    ensures
        expanded(content, globals) == bindings(parsed_declarations(content))[name],
{
    lemma_lone_placeholder_document(content, globals);
    lemma_insert_all_keys(Map::empty(), parsed_declarations(content), name);
}

/// A document in which no placeholder names a declared or a global
/// variable expands to its remainder.
pub proof fn lemma_unresolved_passthrough(content: Seq<char>, globals: Map<Seq<char>, Seq<char>>)
    requires
        are_placeholder_spans(
            parsed_remainder(content),
            placeholder_spans(parsed_remainder(content)),
        ),
        forall|i: int|
            0 <= i < placeholder_spans(parsed_remainder(content)).len() ==> !is_bound_at(
                parsed_remainder(content),
                #[trigger] placeholder_spans(parsed_remainder(content))[i],
                bindings(parsed_declarations(content)),
                globals,
            ),
    ensures
        expanded(content, globals) == parsed_remainder(content),
{
    lemma_unbound_placeholders_stay(
        parsed_remainder(content),
        placeholder_spans(parsed_remainder(content)),
        bindings(parsed_declarations(content)),
        globals,
    );
}

/// A declaration in the document takes precedence: what a global variable
/// of a declared name is bound to has no effect on the expansion.
pub proof fn lemma_declaration_shadows_global(
    content: Seq<char>,
    globals: Map<Seq<char>, Seq<char>>,
    name: Seq<char>,
    value: Seq<char>,
)
    requires
        binds(parsed_declarations(content), name),
    ensures
        expanded(content, globals.insert(name, value)) == expanded(content, globals),
{
    lemma_insert_all_keys(Map::empty(), parsed_declarations(content), name);
    lemma_shadowed_global_is_ignored(
        parsed_remainder(content),
        placeholder_spans(parsed_remainder(content)),
        0,
        bindings(parsed_declarations(content)),
        globals,
        name,
        value,
    );
}

} // verus!
