//! What the classes and the assignments of a module are for.

use crate::external_call_candidates::collect::{
    argument_of, chain_of, class_of, param_position, path_of, with_member, with_node, ClassContextModel, TargetModel,
};
use crate::external_call_candidates::facts::{chain_text, ArgumentModel, ChainModel, FileFactsModel, RootModel, StepModel};
use crate::laws::sdk::{a_chain_reads_as_it_is_written, written};
use crate::syntax::{Node, PropKey};
use vstd::prelude::*;

verus! {

/// `receiver.field = …`
pub open spec fn assigns(node: Node, receiver: Node, field: Seq<char>, value: Node) -> bool {
    node matches Node::Assign { target, value: given } && *given == value && (*target matches Node::Member { object, property }
        && *object == receiver && property@ == field)
}

/// What is assigned to a member of a name is kept with the name, the member and
/// the chain that is assigned.
pub proof fn an_assignment_is_kept(
    facts: FileFactsModel,
    node: Node,
    receiver: Node,
    field: Seq<char>,
    value: Node,
    context: Option<ClassContextModel>,
    targets: Map<Seq<char>, TargetModel>,
    text: Seq<char>,
)
    requires
        assigns(node, receiver, field, value),
        receiver is Ident,
        written(value, context is Some) == Some(text),
    ensures
        ({
            let before = facts.member_assignments;
            let after = with_node(facts, node, context, targets).member_assignments;
            &&& after.len() == before.len() + 1
            &&& after.drop_last() == before
            &&& after.last().target.symbol == receiver->Ident_0.symbol@
            &&& after.last().target.context == receiver->Ident_0.context
            &&& after.last().field == field
            &&& chain_text(after.last().value) == text
        }),
{
    a_chain_reads_as_it_is_written(value, class_of(context));
    let before = facts.member_assignments;
    let after = with_node(facts, node, context, targets).member_assignments;
    assert(after.drop_last() =~= before);
}

/// The name of a chain is a parameter of the constructor, and this is its
/// position, the first where it stands more than once.
pub open spec fn stands_for_parameter(context: ClassContextModel, chain: ChainModel, position: int) -> bool {
    chain.root matches RootModel::Binding { id } && 0 <= position < context.params.len() && context.params[position] == Some(id)
        && forall|i: int| 0 <= i < position ==> #[trigger] context.params[i] != Some(id)
}

proof fn where_a_parameter_stands(context: ClassContextModel, chain: ChainModel)
    ensures
        chain.root matches RootModel::Binding { id } ==> match param_position(context.params, id) {
            Some(position) => context.params.len() <= usize::MAX ==> stands_for_parameter(context, chain, position as int),
            None => forall|i: int| 0 <= i < context.params.len() ==> #[trigger] context.params[i] != Some(id),
        },
    decreases context.params.len(),
{
    if context.params.len() > 0 && chain.root is Binding {
        let n = context.params.len() - 1;
        let init = ClassContextModel { params: context.params.drop_last(), ..context };
        where_a_parameter_stands(init, chain);
        let id = chain.root->id;
        assert forall|i: int| 0 <= i < n implies #[trigger] context.params[i] == init.params[i] by {}
        match param_position(init.params, id) {
            Some(position) => {
                if context.params.len() <= usize::MAX {
                    assert(stands_for_parameter(init, chain, position as int));
                    assert(context.params[position as int] == init.params[position as int]);
                }
            },
            None => {
                assert forall|i: int| 0 <= i < n implies #[trigger] context.params[i] != Some(id) by {
                    assert(init.params[i] != Some(id));
                }
            },
        }
    }
}

/// Steps that only read properties, and their names in order.
pub open spec fn only_reads(steps: Seq<StepModel>, path: Seq<Seq<char>>) -> bool {
    steps.len() == path.len() && forall|i: int|
        0 <= i < steps.len() ==> (#[trigger] steps[i] matches StepModel::Prop { name } && name == path[i])
}

proof fn a_path_is_what_is_read(steps: Seq<StepModel>)
    ensures
        match path_of(steps) {
            Some(path) => only_reads(steps, path),
            None => exists|i: int| 0 <= i < steps.len() && !(#[trigger] steps[i] is Prop),
        },
    decreases steps.len(),
{
    if steps.len() > 0 {
        let init = steps.drop_last();
        let n = steps.len() - 1;
        a_path_is_what_is_read(init);
        match path_of(steps) {
            Some(path) => {
                let before = path_of(init)->0;
                assert forall|i: int| 0 <= i < steps.len() implies (#[trigger] steps[i] matches StepModel::Prop { name } && name
                    == path[i]) by {
                    if i < n {
                        assert(init[i] == steps[i]);
                        assert(path[i] == before[i]);
                    }
                }
            },
            None => {
                if path_of(init) is None {
                    let i = choose|i: int| 0 <= i < init.len() && !(#[trigger] init[i] is Prop);
                    assert(steps[i] == init[i]);
                } else {
                    assert(!(steps[n] is Prop));
                }
            },
        }
    }
}

/// What is assigned to a member of `this` in a class is a field of the class's
/// instances, with the chain that is assigned. What comes from a parameter of
/// the constructor waits for the constructions: it is kept with the parameter's
/// position and what is read of it, and not at all where that is called.
pub proof fn an_assignment_to_this_is_a_field(
    facts: FileFactsModel,
    node: Node,
    field: Seq<char>,
    value: Node,
    context: ClassContextModel,
    targets: Map<Seq<char>, TargetModel>,
    chain: ChainModel,
)
    requires
        assigns(node, Node::This, field, value),
        context.index < facts.classes.len(),
        context.params.len() <= usize::MAX,
        chain_of(value, Some(context.index)) == Some(chain),
    ensures
        ({
            let before = facts.classes[context.index as int];
            let after = with_node(facts, node, Some(context), targets).classes[context.index as int];
            &&& (!exists|p: int| #[trigger] stands_for_parameter(context, chain, p)) ==> after.instance_fields.len()
                == before.instance_fields.len() + 1 && after.instance_fields.drop_last() == before.instance_fields
                && after.instance_fields.last().name == field && after.instance_fields.last().chain == chain
            &&& forall|p: int| #[trigger]
                stands_for_parameter(context, chain, p) ==> after.instance_fields == before.instance_fields && if exists|i: int|
                    0 <= i < chain.steps.len() && !(#[trigger] chain.steps[i] is Prop) {
                    after.ctor_param_fields == before.ctor_param_fields
                } else {
                    after.ctor_param_fields.len() == before.ctor_param_fields.len() + 1 && after.ctor_param_fields.drop_last()
                        == before.ctor_param_fields && after.ctor_param_fields.last().field == field
                        && after.ctor_param_fields.last().position == p && only_reads(
                        chain.steps,
                        after.ctor_param_fields.last().path,
                    )
                }
        }),
{
    where_a_parameter_stands(context, chain);
    a_path_is_what_is_read(chain.steps);
    let before = facts.classes[context.index as int];
    let after = with_node(facts, node, Some(context), targets).classes[context.index as int];
    if chain.root is Binding {
        let id = chain.root->id;
        match param_position(context.params, id) {
            Some(position) => {
                assert(stands_for_parameter(context, chain, position as int));
                assert forall|p: int| #[trigger] stands_for_parameter(context, chain, p) implies p == position by {
                    if p < position {
                        assert(context.params[p] != Some(id));
                    }
                    if position < p {
                        assert(context.params[position as int] != Some(id));
                    }
                }
                match path_of(chain.steps) {
                    Some(path) => {
                        assert(after.ctor_param_fields.drop_last() =~= before.ctor_param_fields);
                        assert forall|i: int| 0 <= i < chain.steps.len() implies #[trigger] chain.steps[i] is Prop by {}
                    },
                    None => {},
                }
            },
            None => {
                assert forall|p: int| !#[trigger] stands_for_parameter(context, chain, p) by {}
                assert(after.instance_fields.drop_last() =~= before.instance_fields);
            },
        }
    } else {
        assert(after.instance_fields.drop_last() =~= before.instance_fields);
    }
}

/// A property of a class whose value is written as a chain is a field of its
/// instances, or of the class itself where it is static.
pub proof fn a_property_is_a_field(facts: FileFactsModel, index: usize, member: Node, name: Seq<char>, text: Seq<char>)
    requires
        index < facts.classes.len(),
        member is ClassProp,
        member->ClassProp_value is Some,
        member->ClassProp_key matches PropKey::Ident(key) && key@ == name || (member->ClassProp_key matches PropKey::Text(
            key,
        ) && key@ == name),
        written(*(member->ClassProp_value->0), true) == Some(text),
    ensures
        ({
            let before = facts.classes[index as int];
            let after = with_member(facts, index, member).classes[index as int];
            if member->ClassProp_is_static {
                after.static_fields.len() == before.static_fields.len() + 1 && after.static_fields.drop_last()
                    == before.static_fields && after.static_fields.last().name == name && chain_text(
                    after.static_fields.last().chain,
                ) == text && after.instance_fields == before.instance_fields
            } else {
                after.instance_fields.len() == before.instance_fields.len() + 1 && after.instance_fields.drop_last()
                    == before.instance_fields && after.instance_fields.last().name == name && chain_text(
                    after.instance_fields.last().chain,
                ) == text && after.static_fields == before.static_fields
            }
        }),
{
    a_chain_reads_as_it_is_written(*(member->ClassProp_value->0), Some(index));
    let before = facts.classes[index as int];
    let after = with_member(facts, index, member).classes[index as int];
    if member->ClassProp_is_static {
        assert(after.static_fields.drop_last() =~= before.static_fields);
    } else {
        assert(after.instance_fields.drop_last() =~= before.instance_fields);
    }
}

/// A construction of a class by its name hands over its arguments, each in its
/// place: a chain as it is written, an object as a record, and a spread or
/// anything else as what can not be told.
pub proof fn a_construction_hands_over_its_arguments(
    facts: FileFactsModel,
    node: Node,
    context: Option<ClassContextModel>,
    targets: Map<Seq<char>, TargetModel>,
)
    requires
        node is New,
        *(node->New_callee) is Ident,
    ensures
        ({
            let before = facts.constructions;
            let after = with_node(facts, node, context, targets).constructions;
            let args = node->New_args@;
            &&& after.len() == before.len() + 1
            &&& after.drop_last() == before
            &&& after.last().class_binding.symbol == (*(node->New_callee))->Ident_0.symbol@
            &&& after.last().class_binding.context == (*(node->New_callee))->Ident_0.context
            &&& after.last().arguments.len() == args.len()
            &&& forall|i: int|
                0 <= i < args.len() ==> is_handed_over(args[i], context is Some, #[trigger] after.last().arguments[i])
        }),
{
    let before = facts.constructions;
    let after = with_node(facts, node, context, targets).constructions;
    let args = node->New_args@;
    assert(after.drop_last() =~= before);
    assert forall|i: int| 0 <= i < args.len() implies is_handed_over(
        args[i],
        context is Some,
        #[trigger] after.last().arguments[i],
    ) by {
        a_chain_reads_as_it_is_written(args[i], class_of(context));
        assert(after.last().arguments[i] == argument_of(args[i], class_of(context)));
    }
}

/// What is known of an argument that is no object behind brackets or assertions.
pub open spec fn is_handed_over(arg: Node, in_class: bool, argument: ArgumentModel) -> bool {
    match arg {
        Node::Spread(_) => argument is Opaque,
        Node::Object(_) => argument is Record,
        Node::Wrapped { .. } => true,
        _ => match written(arg, in_class) {
            Some(text) => argument matches ArgumentModel::Value { chain } && chain_text(chain) == text,
            None => argument is Opaque,
        },
    }
}

} // verus!
