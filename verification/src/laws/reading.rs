use crate::parser::{
    alias_fields, assembled_expression, assembled_statement, class_head, expression_parts,
    expressions, form_of, function_args, function_head, function_returns, import_fields, is_found,
    label_of, param_fields, parsed, parsed_suite, parts_of_expression, parts_of_statement,
    reads_expression, reads_expressions, reads_names, reads_node, reads_nodes, reads_optional,
    reads_param, reads_params, reads_statement, reads_suite, variant_of, FormView, Part,
    StatementForm, SyntaxProblem, Variant,
};
use crate::syntax::{
    Expression, ExpressionView, ImportedName, ImportedNameView, NodeView, Param, ParamView, Span,
    StatementView,
};
use vstd::prelude::*;

verus! {

/// The expressions of two rows of nodes follow each other, and statements are passed over.
pub proof fn law_expressions_are_picked_in_order(
    first: Seq<NodeView>,
    second: Seq<NodeView>,
    expr: ExpressionView,
    statement: StatementView,
)
    ensures
        expressions(Seq::empty()) == Seq::<ExpressionView>::empty(),
        expressions(seq![NodeView::Expression(expr)]) == seq![expr],
        expressions(seq![NodeView::Statement(statement)]) == Seq::<ExpressionView>::empty(),
        expressions(first + second) == expressions(first) + expressions(second),
    decreases second.len(),
{
    reveal_with_fuel(expressions, 2);
    assert(seq![NodeView::Expression(expr)].drop_last() =~= Seq::empty());
    assert(seq![NodeView::Statement(statement)].drop_last() =~= Seq::empty());
    assert(expressions(seq![NodeView::Expression(expr)]) =~= seq![expr]);
    if second.len() == 0 {
        assert(first + second =~= first);
    } else {
        assert((first + second).drop_last() =~= first + second.drop_last());
        law_expressions_are_picked_in_order(first, second.drop_last(), expr, statement);
    }
    assert(expressions(first + second) =~= expressions(first) + expressions(second));
}

/// The expressions of two rows of parts follow each other, and statements are passed over.
pub proof fn law_expression_parts_are_picked_in_order(
    first: Seq<Part>,
    second: Seq<Part>,
    expr: rustpython_ast::Expr,
    statement: rustpython_ast::Stmt,
)
    ensures
        expression_parts(Seq::empty()) == Seq::<rustpython_ast::Expr>::empty(),
        expression_parts(seq![Part::Expression(expr)]) == seq![expr],
        expression_parts(seq![Part::Statement(statement)]) == Seq::<rustpython_ast::Expr>::empty(),
        expression_parts(first + second) == expression_parts(first) + expression_parts(second),
    decreases second.len(),
{
    reveal_with_fuel(expression_parts, 2);
    assert(seq![Part::Expression(expr)].drop_last() =~= Seq::empty());
    assert(seq![Part::Statement(statement)].drop_last() =~= Seq::empty());
    assert(expression_parts(seq![Part::Expression(expr)]) =~= seq![expr]);
    if second.len() == 0 {
        assert(first + second =~= first);
    } else {
        assert((first + second).drop_last() =~= first + second.drop_last());
        law_expression_parts_are_picked_in_order(first, second.drop_last(), expr, statement);
    }
    assert(expression_parts(first + second) =~= expression_parts(first) + expression_parts(
        second,
    ));
}

/// An expression keeps its operands, each in its place. An attribute has a value, and a subscript
/// has a value and then a slice.
pub proof fn law_expression_keeps_its_operands(
    label: Seq<char>,
    id: Seq<char>,
    span: Span,
    attr: Seq<char>,
    value: ExpressionView,
    slice: ExpressionView,
    operands: Seq<ExpressionView>,
)
    ensures
        assembled_expression(FormView::Name { id, span }, label, operands)
            == (ExpressionView::Name { id, span }),
        ({
            let attribute = assembled_expression(FormView::Attribute { attr }, label, seq![value]);
            &&& attribute is Attribute
            &&& *attribute->Attribute_value == value
            &&& attribute->attr == attr
        }),
        ({
            let subscript = assembled_expression(FormView::Subscript, label, seq![value, slice]);
            &&& subscript is Subscript
            &&& *subscript->Subscript_value == value
            &&& *subscript->slice == slice
        }),
        assembled_expression(FormView::Tuple, label, operands) == (ExpressionView::Tuple {
            elts: operands,
        }),
        assembled_expression(FormView::List, label, operands) == (ExpressionView::List {
            label,
            elts: operands,
        }),
        assembled_expression(FormView::Other, label, operands) == (ExpressionView::Other {
            label,
            operands,
        }),
        operands.len() != 1 ==> assembled_expression(FormView::Attribute { attr }, label, operands)
            == (ExpressionView::Other { label, operands }),
        operands.len() != 2 ==> assembled_expression(FormView::Subscript, label, operands) == (
        ExpressionView::Other { label, operands }),
{
}

/// A function and a class keep what they hold, with all nodes inside them.
pub proof fn law_definition_keeps_its_nodes(
    name: String,
    span: Span,
    params: Vec<Param>,
    return_type: Option<Expression>,
    nodes: Seq<NodeView>,
    i: int,
)
    ensures
        ({
            let function = assembled_statement(
                StatementForm::FunctionDef { name, span, params, return_type },
                nodes,
            );
            &&& function is FunctionDef
            &&& function->FunctionDef_name == name@
            &&& function->FunctionDef_span == span
            &&& function->params.len() == params@.len()
            &&& 0 <= i < params@.len() ==> function->params[i] == params@[i]@
            &&& function->return_type is Some <==> return_type is Some
            &&& return_type is Some ==> function->return_type->0 == return_type->0@
            &&& function->FunctionDef_nodes == nodes
        }),
        assembled_statement(StatementForm::ClassDef { name, span }, nodes)
            == (StatementView::ClassDef { name: name@, span, nodes }),
        assembled_statement(StatementForm::Other, nodes) == (StatementView::Other { nodes }),
{
}

/// The last expression of an assignment is its value, and all those before are its targets.
pub proof fn law_last_expression_is_assigned(nodes: Seq<NodeView>)
    ensures
        ({
            let exprs = expressions(nodes);
            let assign = assembled_statement(StatementForm::Assign, nodes);
            &&& exprs.len() > 0 ==> assign is Assign && assign->targets + seq![assign->value]
                == exprs
            &&& exprs.len() == 0 ==> assign == (StatementView::Other { nodes: Seq::empty() })
        }),
{
    let exprs = expressions(nodes);
    if exprs.len() > 0 {
        assert(exprs.drop_last() + seq![exprs.last()] =~= exprs);
    }
}

/// An import keeps its names, and a `from` import its module and its level too.
pub proof fn law_import_keeps_its_names(
    module: Option<String>,
    level: usize,
    names: Vec<ImportedName>,
    nodes: Seq<NodeView>,
    i: int,
)
    ensures
        ({
            let import = assembled_statement(StatementForm::Import { names }, nodes);
            let from = assembled_statement(
                StatementForm::ImportFrom { module, level, names },
                nodes,
            );
            &&& import is Import
            &&& from is ImportFrom
            &&& import->Import_names.len() == names@.len()
            &&& from->ImportFrom_names == import->Import_names
            &&& 0 <= i < names@.len() ==> import->Import_names[i] == names@[i]@
            &&& from->level == level
            &&& from->module is Some <==> module is Some
            &&& module is Some ==> from->module->0 == module->0@
        }),
{
}

/// Expressions are read one by one, in their order.
pub proof fn law_expressions_are_read_one_by_one(
    outside: Seq<rustpython_ast::Expr>,
    read: Seq<ExpressionView>,
)
    ensures
        reads_expressions(outside, read) <==> outside.len() == read.len() && (forall|i: int|
            0 <= i < read.len() ==> reads_expression(outside[i], #[trigger] read[i])),
    decreases read.len(),
{
    if read.len() > 0 && outside.len() > 0 {
        let shorter = read.drop_last();
        let fewer = outside.drop_last();
        let last = read.len() - 1;
        law_expressions_are_read_one_by_one(fewer, shorter);
        if reads_expressions(outside, read) {
            assert forall|i: int| 0 <= i < read.len() implies reads_expression(
                outside[i],
                #[trigger] read[i],
            ) by {
                if i < last {
                    assert(shorter[i] == read[i] && fewer[i] == outside[i]);
                }
            }
        }
        if outside.len() == read.len() && (forall|i: int|
            0 <= i < read.len() ==> reads_expression(outside[i], #[trigger] read[i])) {
            assert forall|i: int| 0 <= i < shorter.len() implies reads_expression(
                fewer[i],
                #[trigger] shorter[i],
            ) by {
                assert(reads_expression(outside[i], read[i]));
            }
            assert(reads_expression(outside[last], read[last]));
        }
    }
}

/// Nodes are read one by one, in their order.
pub proof fn law_nodes_are_read_one_by_one(outside: Seq<Part>, read: Seq<NodeView>)
    ensures
        reads_nodes(outside, read) <==> outside.len() == read.len() && (forall|i: int|
            0 <= i < read.len() ==> reads_node(outside[i], #[trigger] read[i])),
    decreases read.len(),
{
    if read.len() > 0 && outside.len() > 0 {
        let shorter = read.drop_last();
        let fewer = outside.drop_last();
        let last = read.len() - 1;
        law_nodes_are_read_one_by_one(fewer, shorter);
        if reads_nodes(outside, read) {
            assert forall|i: int| 0 <= i < read.len() implies reads_node(
                outside[i],
                #[trigger] read[i],
            ) by {
                if i < last {
                    assert(shorter[i] == read[i] && fewer[i] == outside[i]);
                }
            }
        }
        if outside.len() == read.len() && (forall|i: int|
            0 <= i < read.len() ==> reads_node(outside[i], #[trigger] read[i])) {
            assert forall|i: int| 0 <= i < shorter.len() implies reads_node(
                fewer[i],
                #[trigger] shorter[i],
            ) by {
                assert(reads_node(outside[i], read[i]));
            }
            assert(reads_node(outside[last], read[last]));
        }
    }
}

/// A statement is read as a statement and an expression as an expression.
pub proof fn law_nodes_keep_their_sort(
    statement: rustpython_ast::Stmt,
    expr: rustpython_ast::Expr,
    read: StatementView,
    value: ExpressionView,
)
    ensures
        reads_node(Part::Statement(statement), NodeView::Statement(read)) <==> reads_statement(
            statement,
            read,
        ),
        reads_node(Part::Expression(expr), NodeView::Expression(value)) <==> reads_expression(
            expr,
            value,
        ),
        !reads_node(Part::Statement(statement), NodeView::Expression(value)),
        !reads_node(Part::Expression(expr), NodeView::Statement(read)),
{
}

/// An expression is read as its form over its operands, each of which is read in turn.
pub proof fn law_expression_is_read_with_its_operands(
    outside: rustpython_ast::Expr,
    operands: Seq<ExpressionView>,
)
    requires
        reads_expressions(expression_parts(parts_of_expression(outside)), operands),
    ensures
        reads_expression(
            outside,
            assembled_expression(form_of(outside), label_of(outside), operands),
        ),
{
    law_expressions_are_read_one_by_one(
        expression_parts(parts_of_expression(outside)),
        operands,
    );
    if operands.len() == 1 {
        assert(reads_expression(expression_parts(parts_of_expression(outside))[0], operands[0]));
    }
    if operands.len() == 2 {
        assert(reads_expression(expression_parts(parts_of_expression(outside))[0], operands[0]));
        assert(reads_expression(expression_parts(parts_of_expression(outside))[1], operands[1]));
    }
}

/// What is read of an expression has its form, its label and its operands, in their order.
pub proof fn law_read_expression_has_its_form(
    outside: rustpython_ast::Expr,
    read: ExpressionView,
)
    requires
        reads_expression(outside, read),
    ensures
        ({
            let parts = expression_parts(parts_of_expression(outside));
            match read {
                ExpressionView::Name { id, span } => form_of(outside) == (FormView::Name {
                    id,
                    span,
                }),
                ExpressionView::Attribute { value, attr } => {
                    &&& form_of(outside) == (FormView::Attribute { attr })
                    &&& reads_expressions(parts, seq![*value])
                },
                ExpressionView::Subscript { value, slice } => {
                    &&& form_of(outside) is Subscript
                    &&& reads_expressions(parts, seq![*value, *slice])
                },
                ExpressionView::Tuple { elts } => {
                    &&& form_of(outside) is Tuple
                    &&& reads_expressions(parts, elts)
                },
                ExpressionView::List { label, elts } => {
                    &&& form_of(outside) is List
                    &&& label == label_of(outside)
                    &&& reads_expressions(parts, elts)
                },
                ExpressionView::Other { label, operands } => {
                    &&& !(form_of(outside) is Name)
                    &&& !(form_of(outside) is Tuple)
                    &&& !(form_of(outside) is List)
                    &&& form_of(outside) is Attribute ==> operands.len() != 1
                    &&& form_of(outside) is Subscript ==> operands.len() != 2
                    &&& label == label_of(outside)
                    &&& reads_expressions(parts, operands)
                },
            }
        }),
{
    let parts = expression_parts(parts_of_expression(outside));
    match read {
        ExpressionView::Attribute { value, .. } => {
            law_expressions_are_read_one_by_one(parts, seq![*value]);
        },
        ExpressionView::Subscript { value, slice } => {
            law_expressions_are_read_one_by_one(parts, seq![*value, *slice]);
        },
        ExpressionView::Other { operands, .. } => {
            law_expressions_are_read_one_by_one(parts, operands);
        },
        _ => {},
    }
}

/// A parameter is read with its name, its place and its annotation, and an optional expression if
/// it is there.
pub proof fn law_parameter_is_read_in_full(
    param: rustpython_ast::ArgWithDefault,
    read: ParamView,
    expr: Box<rustpython_ast::Expr>,
    value: ExpressionView,
)
    ensures
        reads_param(param, read) <==> {
            &&& read.name == param_fields(param).0
            &&& read.span == param_fields(param).1
            &&& reads_optional(param_fields(param).2, read.annotation)
        },
        reads_optional(Some(expr), Some(value)) <==> reads_expression(*expr, value),
        reads_optional(None, None),
        !reads_optional(Some(expr), None),
        !reads_optional(None, Some(value)),
{
}

/// Parameters and imported names are read one by one, in their order.
pub proof fn law_parameters_and_names_are_read_one_by_one(
    params: Seq<rustpython_ast::ArgWithDefault>,
    read: Seq<ParamView>,
    param: rustpython_ast::ArgWithDefault,
    next: ParamView,
    aliases: Seq<rustpython_ast::Alias>,
    names: Seq<ImportedNameView>,
    alias: rustpython_ast::Alias,
    name: ImportedNameView,
)
    ensures
        reads_params(Seq::empty(), Seq::empty()),
        reads_params(params, read) ==> params.len() == read.len(),
        reads_params(params.push(param), read.push(next)) <==> reads_params(params, read)
            && reads_param(param, next),
        reads_names(Seq::empty(), Seq::empty()),
        reads_names(aliases, names) ==> aliases.len() == names.len(),
        reads_names(aliases.push(alias), names.push(name)) <==> reads_names(aliases, names)
            && alias_fields(alias) == (name.name, name.asname, name.span),
{
    let more = read.push(next);
    let given = params.push(param);
    if reads_params(given, more) {
        assert(reads_param(given[read.len() as int], more[read.len() as int]));
        assert forall|i: int| 0 <= i < read.len() implies reads_param(
            params[i],
            #[trigger] read[i],
        ) by {
            assert(reads_param(given[i], more[i]));
        }
    }
    let longer = names.push(name);
    let all = aliases.push(alias);
    if reads_names(all, longer) {
        assert(longer[names.len() as int] == name && all[names.len() as int] == alias);
        assert forall|i: int| 0 <= i < names.len() implies alias_fields(aliases[i]) == (
            (#[trigger] names[i]).name,
            names[i].asname,
            names[i].span,
        ) by {
            assert(longer[i] == names[i] && all[i] == aliases[i]);
        }
    }
}

/// A function definition is read with its name, its place, its parameters, its return type and
/// all nodes inside it.
pub proof fn law_function_is_read_in_full(
    outside: rustpython_ast::Stmt,
    node: rustpython_ast::StmtFunctionDef,
    read: StatementView,
)
    requires
        variant_of(outside) == Variant::FunctionDef(node),
    ensures
        reads_statement(outside, read) <==> {
            &&& read is FunctionDef
            &&& read->FunctionDef_name == function_head(node).0
            &&& read->FunctionDef_span == function_head(node).1
            &&& reads_params(function_args(node), read->params)
            &&& reads_optional(function_returns(node), read->return_type)
            &&& reads_nodes(parts_of_statement(outside), read->FunctionDef_nodes)
        },
{
}

/// A class definition is read with its name, its place and all nodes inside it, and any other
/// statement with all nodes inside it.
pub proof fn law_class_is_read_in_full(
    outside: rustpython_ast::Stmt,
    node: rustpython_ast::StmtClassDef,
    read: StatementView,
)
    ensures
        variant_of(outside) == Variant::ClassDef(node) ==> (reads_statement(outside, read) <==> {
            &&& read is ClassDef
            &&& read->ClassDef_name == class_head(node).0
            &&& read->ClassDef_span == class_head(node).1
            &&& reads_nodes(parts_of_statement(outside), read->ClassDef_nodes)
        }),
        variant_of(outside) is Other ==> (reads_statement(outside, read) <==> {
            &&& read is Other
            &&& reads_nodes(parts_of_statement(outside), read->Other_nodes)
        }),
{
}

/// An assignment is read with its targets and its value, which comes last.
pub proof fn law_assignment_is_read_in_full(
    outside: rustpython_ast::Stmt,
    targets: Seq<ExpressionView>,
    value: ExpressionView,
    nodes: Seq<NodeView>,
)
    requires
        variant_of(outside) is Assign,
    ensures
        ({
            let parts = expression_parts(parts_of_statement(outside));
            &&& reads_statement(outside, StatementView::Assign { targets, value })
                <==> reads_expressions(parts, targets + seq![value])
            &&& reads_statement(outside, StatementView::Other { nodes }) <==> parts.len() == 0
                && nodes.len() == 0
        }),
{
    let all = targets + seq![value];
    assert(all.drop_last() =~= targets);
    assert(all.last() == value);
}

/// An import is read with its names. A `from` import is read with its module and its level too,
/// which is zero if it has none.
pub proof fn law_imports_are_read_in_full(
    outside: rustpython_ast::Stmt,
    aliases: Seq<rustpython_ast::Alias>,
    node: rustpython_ast::StmtImportFrom,
    read: StatementView,
)
    ensures
        variant_of(outside) == Variant::Import(aliases) ==> (reads_statement(outside, read) <==> {
            &&& read is Import
            &&& reads_names(aliases, read->Import_names)
        }),
        variant_of(outside) == Variant::ImportFrom(node) ==> (reads_statement(outside, read)
            <==> {
            &&& read is ImportFrom
            &&& read->module == import_fields(node).0
            &&& import_fields(node).1 is Some ==> read->level == import_fields(node).1->0
            &&& import_fields(node).1 is None ==> read->level == 0
            &&& reads_names(import_fields(node).2, read->ImportFrom_names)
        }),
{
}

/// A module is read statement by statement, in their order.
pub proof fn law_module_is_read_statement_by_statement(
    outside: Seq<rustpython_ast::Stmt>,
    read: Seq<NodeView>,
    statement: rustpython_ast::Stmt,
    node: NodeView,
)
    ensures
        reads_suite(Seq::empty(), Seq::empty()),
        reads_suite(outside, read) ==> outside.len() == read.len(),
        reads_suite(outside.push(statement), read.push(node)) <==> reads_suite(outside, read)
            && reads_node(Part::Statement(statement), node),
{
    let more = read.push(node);
    let given = outside.push(statement);
    if reads_suite(given, more) {
        assert(reads_node(Part::Statement(given[read.len() as int]), more[read.len() as int]));
        assert forall|i: int| 0 <= i < read.len() implies reads_node(
            Part::Statement(outside[i]),
            #[trigger] read[i],
        ) by {
            assert(reads_node(Part::Statement(given[i]), more[i]));
        }
    }
}

/// What is found in a text is what the parser finds: its statements, all read, or its error.
pub proof fn law_parser_is_followed(
    text: Seq<char>,
    path: Seq<char>,
    nodes: Seq<NodeView>,
    problem: SyntaxProblem,
)
    ensures
        is_found(text, path, Ok(nodes)) <==> parsed_suite(text, path) is Ok && reads_suite(
            parsed_suite(text, path)->Ok_0,
            nodes,
        ),
        is_found(text, path, Err(problem)) <==> parsed_suite(text, path) == Err::<
            Seq<rustpython_ast::Stmt>,
            SyntaxProblem,
        >(problem),
        parsed(text, path) == Err::<Seq<NodeView>, SyntaxProblem>(problem) <==> parsed_suite(
            text,
            path,
        ) == Err::<Seq<rustpython_ast::Stmt>, SyntaxProblem>(problem),
{
}

} // verus!
