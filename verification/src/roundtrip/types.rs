//! Types that are read again from their items.
use vstd::prelude::*;

use crate::ast::{FieldView, FunctionTypeView, ParameterView, TypeView};
use crate::fmt::render::{
    field_text, field_texts, parameter_text, parameter_texts, parameters_text, return_type_text,
    type_text, type_texts,
};
use crate::lexer::reread::Item;
use crate::lexer::stream::Stream;
use crate::parser::grammar::named_type;
use crate::roundtrip::chain::{lemma_expression_reparsed, lemma_reads_token, reads};
use crate::roundtrip::items::{
    expression_items, field_items, holds_at, lemma_holds_one, lemma_holds_split, listed_fields,
    listed_parameters, listed_types, one, parameter_items, return_type_items, signature_items,
    type_items,
};
use crate::roundtrip::sound::{
    lemma_plain_fields_at, lemma_plain_parameters_at, lemma_plain_types_at, lemma_sound_fields_at,
    lemma_sound_parameters_at, lemma_sound_types_at, plain_field, plain_fields, plain_function_type,
    plain_parameter, plain_parameters, plain_type, plain_types, sound_field, sound_fields,
    sound_function_type, sound_parameter, sound_parameters, sound_type, sound_types,
};
use crate::token::TokenView;

verus! {

/// The text of the type that a name names is the name.
pub proof fn lemma_named_type_text(name: Seq<char>)
    ensures
        type_text(named_type(name)) == name,
{
}

/// The names of the built-in types name them.
pub proof fn lemma_builtin_types()
    ensures
        named_type("bool"@) == TypeView::Boolean,
        named_type("int"@) == TypeView::Integer,
        named_type("float"@) == TypeView::Float,
        named_type("string"@) == TypeView::String,
{
    reveal_strlit("bool");
    reveal_strlit("int");
    reveal_strlit("float");
    reveal_strlit("string");
    assert("bool"@.len() == 4);
    assert("int"@.len() == 3);
    assert("float"@.len() == 5);
    assert("string"@.len() == 6);
}

/// The items of a type are not empty, and the first stands after the whitespace given.
pub proof fn lemma_type_items_exist(typ: TypeView, lead: Seq<char>)
    ensures
        type_items(typ, lead).len() >= 1,
        type_items(typ, lead)[0].white == lead,
{
}

/// The index at which the element at index `j` of a list starts, whose first element starts
/// at index `k0`: after the items of the elements before it and the comma after them.
pub open spec fn element_start(k0: int, before: int, j: int) -> int {
    if j == 0 {
        k0
    } else {
        k0 + before + 1
    }
}

/// What reading a list again gives: as many after those of `done` as are left to read from
/// index `j` on, each the one that was written.
pub open spec fn relisted<T>(done: Seq<T>, written: Seq<T>, j: int, again: Seq<T>) -> bool {
    &&& again.len() == done.len() + (written.len() - j)
    &&& forall|i: int| 0 <= i < done.len() ==> again[i] == #[trigger] done[i]
    &&& forall|i: int| j <= i < written.len() ==> again[done.len() + i - j] == #[trigger] written[i]
}

/// A list that is read again from its first on is the list that was written.
pub proof fn lemma_relisted_all<T>(done: Seq<T>, written: Seq<T>, again: Seq<T>)
    requires
        done.len() == 0,
        relisted(done, written, 0, again),
    ensures
        again == written,
{
    assert forall|i: int| 0 <= i < written.len() implies again[i] == written[i] by {
        assert(again[done.len() + i - 0] == written[i]);
    }
    assert(again =~= written);
}

/// The last of a list, read again after the others, makes the list read again.
pub proof fn lemma_relisted_last<T>(done: Seq<T>, element: T, written: Seq<T>, j: int)
    requires
        0 <= j,
        j + 1 == written.len(),
        element == written[j],
    ensures
        relisted(done, written, j, done.push(element)),
{
    let again = done.push(element);
    assert forall|i: int| 0 <= i < done.len() implies again[i] == #[trigger] done[i] by {}
    assert forall|i: int| j <= i < written.len() implies again[done.len() + i - j]
        == #[trigger] written[i] by {}
}

/// One of a list, read again before the rest of it, makes the list read again from it on.
pub proof fn lemma_relisted_step<T>(
    done: Seq<T>,
    element: T,
    written: Seq<T>,
    j: int,
    again: Seq<T>,
)
    requires
        0 <= j < written.len(),
        element == written[j],
        relisted(done.push(element), written, j + 1, again),
    ensures
        relisted(done, written, j, again),
{
    let more = done.push(element);
    assert forall|i: int| 0 <= i < done.len() implies again[i] == #[trigger] done[i] by {
        assert(more[i] == done[i]);
    }
    assert forall|i: int| j <= i < written.len() implies again[done.len() + i - j]
        == #[trigger] written[i] by {
        if i == j {
            assert(more[done.len() as int] == element);
            assert(again[done.len() as int] == more[done.len() as int]);
        } else {
            assert(again[more.len() + i - (j + 1)] == written[i]);
        }
    }
}

/// A type is read again from its items, as a type with the same text.
#[verifier::rlimit(60)]
pub proof fn lemma_type_reparsed(
    s: Stream,
    items: Seq<Item>,
    tail: Seq<char>,
    k: int,
    typ: TypeView,
    lead: Seq<char>,
)
    requires
        reads(s, items, tail),
        sound_type(typ),
        holds_at(items, k, type_items(typ, lead)),
        s.at(k + type_items(typ, lead).len()).token != TokenView::Colon,
    ensures
        match s.typ(k) {
            Ok((again, k1)) => {
                &&& k1 == k + type_items(typ, lead).len()
                &&& type_text(again) == type_text(typ)
                &&& plain_type(typ) ==> again == typ
            },
            Err(_) => false,
        },
    decreases typ, 0nat,
{
    let written = type_items(typ, lead);
    let e = k + written.len();
    let none = Seq::<char>::empty();
    lemma_reads_token(s, items, tail, k);
    assert(items[k] == written[0]) by {
        assert(items.subrange(k, e)[0] == written[0]);
    }
    match typ {
        TypeView::Tuple(elements) => {
            let list = listed_types(elements, elements.len());
            let open = one(lead, TokenView::LeftParenthesis);
            let close = one(none, TokenView::RightParenthesis);
            lemma_holds_split(items, k, open + list, close);
            lemma_holds_split(items, k, open, list);
            lemma_holds_one(items, k + 1 + list.len(), none, TokenView::RightParenthesis);
            lemma_reads_token(s, items, tail, k + 1 + list.len());
            if elements.len() > 0 {
                lemma_elements_reparsed(s, items, tail, k + 1, elements, 0, Seq::empty());
                let again = s.elements(k + 1, Seq::empty())->Ok_0.0;
                lemma_relisted_all(type_texts(Seq::empty()), type_texts(elements), type_texts(again));
                if plain_type(typ) {
                    lemma_relisted_all(Seq::empty(), elements, again);
                }
            } else {
                lemma_reads_token(s, items, tail, k + 1);
                assert(type_texts(Seq::<TypeView>::empty()) =~= type_texts(elements));
                assert(elements =~= Seq::<TypeView>::empty());
            }
        },
        TypeView::Struct(fields) => {
            let white = if fields.len() == 0 {
                " "@ + " "@
            } else {
                " "@
            };
            let list = listed_fields(fields, fields.len());
            let open = one(lead, TokenView::LeftBrace);
            let close = one(white, TokenView::RightBrace);
            lemma_holds_split(items, k, open + list, close);
            lemma_holds_split(items, k, open, list);
            lemma_holds_one(items, k + 1 + list.len(), white, TokenView::RightBrace);
            lemma_reads_token(s, items, tail, k + 1 + list.len());
            if fields.len() > 0 {
                lemma_fields_reparsed(s, items, tail, k + 1, fields, 0, Seq::empty());
                let again = s.fields(k + 1, Seq::empty())->Ok_0.0;
                lemma_relisted_all(field_texts(Seq::empty()), field_texts(fields), field_texts(again));
                if plain_type(typ) {
                    lemma_relisted_all(Seq::empty(), fields, again);
                }
            } else {
                lemma_reads_token(s, items, tail, k + 1);
                assert(field_texts(Seq::<FieldView>::empty()) =~= field_texts(fields));
                assert(fields =~= Seq::<FieldView>::empty());
            }
        },
        TypeView::Function(function) => {
            let head = one(lead, TokenView::Function);
            lemma_holds_split(items, k, head, signature_items(function, " "@));
            lemma_signature_reparsed(s, items, tail, k + 1, function, " "@);
        },
        TypeView::Name(name) => {
            lemma_named_type_text(name);
        },
        _ => {
            lemma_named_type_text("bool"@);
            lemma_named_type_text("int"@);
            lemma_named_type_text("float"@);
            lemma_named_type_text("string"@);
            lemma_builtin_types();
        },
    }
}

/// The items of a field are not empty, and the first stands after the whitespace given.
pub proof fn lemma_field_items_exist(field: FieldView, lead: Seq<char>)
    ensures
        field_items(field, lead).len() >= 3,
        field_items(field, lead)[0].white == lead,
{
    lemma_type_items_exist(field.typ, " "@);
}

/// The items of a parameter are not empty, and the first stands after the whitespace given.
pub proof fn lemma_parameter_items_exist(parameter: ParameterView, lead: Seq<char>)
    ensures
        parameter_items(parameter, lead).len() >= 3,
        parameter_items(parameter, lead)[0].white == lead,
{
    lemma_type_items_exist(parameter.typ, " "@);
}

/// The items of the first types of a list are the first of the items of more of them.
pub proof fn lemma_types_prefix(types: Seq<TypeView>, n: nat, total: nat)
    requires
        n <= total <= types.len(),
    ensures
        listed_types(types, n).len() <= listed_types(types, total).len(),
        listed_types(types, total).subrange(0, listed_types(types, n).len() as int) == listed_types(
            types,
            n,
        ),
        n < total ==> listed_types(types, n).len() < listed_types(types, total).len(),
    decreases total - n,
{
    if n < total {
        lemma_types_prefix(types, n, (total - 1) as nat);
        lemma_type_items_exist(types[total - 1], " "@);
        lemma_type_items_exist(types[total - 1], Seq::empty());
        let shorter = listed_types(types, (total - 1) as nat);
        let whole = listed_types(types, total);
        assert(whole.subrange(0, listed_types(types, n).len() as int) =~= shorter.subrange(
            0,
            listed_types(types, n).len() as int,
        ));
    } else {
        assert(listed_types(types, total).subrange(0, listed_types(types, total).len() as int)
            =~= listed_types(types, total));
    }
}

/// The items of the first fields of a list are the first of the items of more of them.
pub proof fn lemma_fields_prefix(fields: Seq<FieldView>, n: nat, total: nat)
    requires
        n <= total <= fields.len(),
    ensures
        listed_fields(fields, n).len() <= listed_fields(fields, total).len(),
        listed_fields(fields, total).subrange(0, listed_fields(fields, n).len() as int) == listed_fields(
            fields,
            n,
        ),
        n < total ==> listed_fields(fields, n).len() < listed_fields(fields, total).len(),
    decreases total - n,
{
    if n < total {
        lemma_fields_prefix(fields, n, (total - 1) as nat);
        lemma_field_items_exist(fields[total - 1], " "@);
        lemma_field_items_exist(fields[total - 1], Seq::empty());
        let shorter = listed_fields(fields, (total - 1) as nat);
        let whole = listed_fields(fields, total);
        assert(whole.subrange(0, listed_fields(fields, n).len() as int) =~= shorter.subrange(
            0,
            listed_fields(fields, n).len() as int,
        ));
    } else {
        assert(listed_fields(fields, total).subrange(0, listed_fields(fields, total).len() as int)
            =~= listed_fields(fields, total));
    }
}

/// The items of the first parameters of a list are the first of the items of more of them.
pub proof fn lemma_parameters_prefix(parameters: Seq<ParameterView>, n: nat, total: nat)
    requires
        n <= total <= parameters.len(),
    ensures
        listed_parameters(parameters, n).len() <= listed_parameters(parameters, total).len(),
        listed_parameters(parameters, total).subrange(0, listed_parameters(parameters, n).len() as int) == listed_parameters(
            parameters,
            n,
        ),
        n < total ==> listed_parameters(parameters, n).len() < listed_parameters(parameters, total).len(),
    decreases total - n,
{
    if n < total {
        lemma_parameters_prefix(parameters, n, (total - 1) as nat);
        lemma_parameter_items_exist(parameters[total - 1], " "@);
        lemma_parameter_items_exist(parameters[total - 1], Seq::empty());
        let shorter = listed_parameters(parameters, (total - 1) as nat);
        let whole = listed_parameters(parameters, total);
        assert(whole.subrange(0, listed_parameters(parameters, n).len() as int) =~= shorter.subrange(
            0,
            listed_parameters(parameters, n).len() as int,
        ));
    } else {
        assert(listed_parameters(parameters, total).subrange(0, listed_parameters(parameters, total).len() as int)
            =~= listed_parameters(parameters, total));
    }
}

/// The element types of a tuple type are read again from their items, from the one at index `j` on.
#[verifier::rlimit(60)]
pub proof fn lemma_elements_reparsed(
    s: Stream,
    items: Seq<Item>,
    tail: Seq<char>,
    k0: int,
    types: Seq<TypeView>,
    j: nat,
    done: Seq<TypeView>,
)
    requires
        reads(s, items, tail),
        sound_types(types, types.len()),
        holds_at(items, k0, listed_types(types, types.len())),
        k0 + listed_types(types, types.len()).len() < items.len(),
        items[k0 + listed_types(types, types.len()).len()].token == TokenView::RightParenthesis,
        j < types.len(),
    ensures
        match s.elements(element_start(k0, listed_types(types, j).len() as int, j as int), done) {
            Ok((again, k1)) => {
                &&& k1 == k0 + listed_types(types, types.len()).len()
                &&& relisted(type_texts(done), type_texts(types), j as int, type_texts(again))
                &&& plain_types(types, types.len()) ==> relisted(
                    done,
                    types,
                    j as int,
                    again,
                )
            },
            Err(_) => false,
        },
    decreases types, types.len() - j,
{
    let total = types.len();
    let whole = listed_types(types, total);
    let before = listed_types(types, j);
    let through = listed_types(types, j + 1);
    let k = element_start(k0, before.len() as int, j as int);
    let lead = if j == 0 {
        Seq::<char>::empty()
    } else {
        " "@
    };
    let written = type_items(types[j as int], lead);
    lemma_types_prefix(types, j + 1, total);
    lemma_sound_types_at(types, total, j as int);
    lemma_type_items_exist(types[j as int], lead);
    // the items of the element stand at its start
    assert(holds_at(items, k0, through)) by {
        assert forall|u: int| 0 <= u < through.len() implies items.subrange(
            k0,
            k0 + through.len(),
        )[u] == whole.subrange(0, through.len() as int)[u] by {
            assert(items.subrange(k0, k0 + whole.len())[u] == whole[u]);
        }
        assert(items.subrange(k0, k0 + through.len()) =~= whole.subrange(
            0,
            through.len() as int,
        ));
    }
    if j == 0 {
        assert(through == written);
    } else {
        let comma = one(Seq::<char>::empty(), TokenView::Comma);
        assert(through == before + comma + written);
        lemma_holds_split(items, k0, before + comma, written);
    }
    let k1 = k0 + through.len();
    assert(k1 == k + written.len());
    // what stands after the element: the closing token, or a comma
    lemma_reads_token(s, items, tail, k);
    lemma_reads_token(s, items, tail, k1);
    if j + 1 == total {
        lemma_type_in_list(s, items, tail, k, types[j as int], lead);
        let element = s.typ(k)->Ok_0.0;
        assert(type_texts(done.push(element)) =~= type_texts(done).push(type_text(element)));
        if plain_types(types, total) {
            lemma_plain_types_at(types, total, j as int);
            lemma_relisted_last(done, element, types, j as int);
        }
    } else {
        let comma = one(Seq::<char>::empty(), TokenView::Comma);
        let next = listed_types(types, j + 2);
        lemma_types_prefix(types, j + 2, total);
        lemma_type_items_exist(types[j as int + 1], " "@);
        assert(next == through + comma + type_items(types[j as int + 1], " "@));
        assert(items[k1] == whole[through.len() as int]) by {
            assert(items.subrange(k0, k0 + whole.len())[through.len() as int]
                == whole[through.len() as int]);
        }
        assert(whole[through.len() as int] == next[through.len() as int]) by {
            assert(whole.subrange(0, next.len() as int)[through.len() as int]
                == next[through.len() as int]);
        }
        assert(next[through.len() as int] == comma[0]);
        lemma_type_in_list(s, items, tail, k, types[j as int], lead);
        let element = s.typ(k)->Ok_0.0;
        lemma_reads_token(s, items, tail, k1 + 1);
        lemma_elements_reparsed(s, items, tail, k0, types, j + 1, done.push(element));
        let again = s.elements(k1 + 1, done.push(element))->Ok_0.0;
        assert(type_texts(done.push(element)) =~= type_texts(done).push(type_text(element)));
        assert(relisted(type_texts(done), type_texts(types), j as int, type_texts(again))) by {
            let more = type_texts(done.push(element));
            assert forall|i: int| 0 <= i < done.len() implies type_texts(again)[i]
                == #[trigger] type_texts(done)[i] by {
                assert(more[i] == type_texts(done)[i]);
            }
            assert forall|i: int| j <= i < total implies type_texts(again)[done.len() + i - j]
                == #[trigger] type_texts(types)[i] by {
                if i == j {
                    assert(more[done.len() as int] == type_text(element));
                }
            }
        }
        if plain_types(types, total) {
            lemma_plain_types_at(types, total, j as int);
            lemma_relisted_step(done, element, types, j as int, again);
        }
    }
}

/// The fields of a struct type are read again from their items, from the one at index `j` on.
#[verifier::rlimit(60)]
pub proof fn lemma_fields_reparsed(
    s: Stream,
    items: Seq<Item>,
    tail: Seq<char>,
    k0: int,
    fields: Seq<FieldView>,
    j: nat,
    done: Seq<FieldView>,
)
    requires
        reads(s, items, tail),
        sound_fields(fields, fields.len()),
        holds_at(items, k0, listed_fields(fields, fields.len())),
        k0 + listed_fields(fields, fields.len()).len() < items.len(),
        items[k0 + listed_fields(fields, fields.len()).len()].token == TokenView::RightBrace,
        j < fields.len(),
    ensures
        match s.fields(element_start(k0, listed_fields(fields, j).len() as int, j as int), done) {
            Ok((again, k1)) => {
                &&& k1 == k0 + listed_fields(fields, fields.len()).len()
                &&& relisted(field_texts(done), field_texts(fields), j as int, field_texts(again))
                &&& plain_fields(fields, fields.len()) ==> relisted(
                    done,
                    fields,
                    j as int,
                    again,
                )
            },
            Err(_) => false,
        },
    decreases fields, fields.len() - j,
{
    let total = fields.len();
    let whole = listed_fields(fields, total);
    let before = listed_fields(fields, j);
    let through = listed_fields(fields, j + 1);
    let k = element_start(k0, before.len() as int, j as int);
    let lead = if j == 0 {
        " "@
    } else {
        " "@
    };
    let written = field_items(fields[j as int], lead);
    lemma_fields_prefix(fields, j + 1, total);
    lemma_sound_fields_at(fields, total, j as int);
    lemma_field_items_exist(fields[j as int], lead);
    // the items of the element stand at its start
    assert(holds_at(items, k0, through)) by {
        assert forall|u: int| 0 <= u < through.len() implies items.subrange(
            k0,
            k0 + through.len(),
        )[u] == whole.subrange(0, through.len() as int)[u] by {
            assert(items.subrange(k0, k0 + whole.len())[u] == whole[u]);
        }
        assert(items.subrange(k0, k0 + through.len()) =~= whole.subrange(
            0,
            through.len() as int,
        ));
    }
    if j == 0 {
        assert(through == written);
    } else {
        let comma = one(Seq::<char>::empty(), TokenView::Comma);
        assert(through == before + comma + written);
        lemma_holds_split(items, k0, before + comma, written);
    }
    let k1 = k0 + through.len();
    assert(k1 == k + written.len());
    // what stands after the element: the closing token, or a comma
    lemma_reads_token(s, items, tail, k);
    lemma_reads_token(s, items, tail, k1);
    if j + 1 == total {
        lemma_field_reparsed(s, items, tail, k, fields[j as int], lead);
        let element = s.field(k)->Ok_0.0;
        assert(field_texts(done.push(element)) =~= field_texts(done).push(field_text(element)));
        if plain_fields(fields, total) {
            lemma_plain_fields_at(fields, total, j as int);
            lemma_relisted_last(done, element, fields, j as int);
        }
    } else {
        let comma = one(Seq::<char>::empty(), TokenView::Comma);
        let next = listed_fields(fields, j + 2);
        lemma_fields_prefix(fields, j + 2, total);
        lemma_field_items_exist(fields[j as int + 1], " "@);
        assert(next == through + comma + field_items(fields[j as int + 1], " "@));
        assert(items[k1] == whole[through.len() as int]) by {
            assert(items.subrange(k0, k0 + whole.len())[through.len() as int]
                == whole[through.len() as int]);
        }
        assert(whole[through.len() as int] == next[through.len() as int]) by {
            assert(whole.subrange(0, next.len() as int)[through.len() as int]
                == next[through.len() as int]);
        }
        assert(next[through.len() as int] == comma[0]);
        lemma_field_reparsed(s, items, tail, k, fields[j as int], lead);
        let element = s.field(k)->Ok_0.0;
        lemma_reads_token(s, items, tail, k1 + 1);
        lemma_fields_reparsed(s, items, tail, k0, fields, j + 1, done.push(element));
        let again = s.fields(k1 + 1, done.push(element))->Ok_0.0;
        assert(field_texts(done.push(element)) =~= field_texts(done).push(field_text(element)));
        assert(relisted(field_texts(done), field_texts(fields), j as int, field_texts(again))) by {
            let more = field_texts(done.push(element));
            assert forall|i: int| 0 <= i < done.len() implies field_texts(again)[i]
                == #[trigger] field_texts(done)[i] by {
                assert(more[i] == field_texts(done)[i]);
            }
            assert forall|i: int| j <= i < total implies field_texts(again)[done.len() + i - j]
                == #[trigger] field_texts(fields)[i] by {
                if i == j {
                    assert(more[done.len() as int] == field_text(element));
                }
            }
        }
        if plain_fields(fields, total) {
            lemma_plain_fields_at(fields, total, j as int);
            lemma_relisted_step(done, element, fields, j as int, again);
        }
    }
}

/// The parameters of a function are read again from their items, from the one at index `j` on.
#[verifier::rlimit(60)]
pub proof fn lemma_parameters_reparsed(
    s: Stream,
    items: Seq<Item>,
    tail: Seq<char>,
    k0: int,
    parameters: Seq<ParameterView>,
    j: nat,
    done: Seq<ParameterView>,
)
    requires
        reads(s, items, tail),
        sound_parameters(parameters, parameters.len()),
        holds_at(items, k0, listed_parameters(parameters, parameters.len())),
        k0 + listed_parameters(parameters, parameters.len()).len() < items.len(),
        items[k0 + listed_parameters(parameters, parameters.len()).len()].token == TokenView::RightParenthesis,
        j < parameters.len(),
    ensures
        match s.parameters(element_start(k0, listed_parameters(parameters, j).len() as int, j as int), done) {
            Ok((again, k1)) => {
                &&& k1 == k0 + listed_parameters(parameters, parameters.len()).len()
                &&& relisted(parameter_texts(done), parameter_texts(parameters), j as int, parameter_texts(again))
                &&& plain_parameters(parameters, parameters.len()) ==> relisted(
                    done,
                    parameters,
                    j as int,
                    again,
                )
            },
            Err(_) => false,
        },
    decreases parameters, parameters.len() - j,
{
    let total = parameters.len();
    let whole = listed_parameters(parameters, total);
    let before = listed_parameters(parameters, j);
    let through = listed_parameters(parameters, j + 1);
    let k = element_start(k0, before.len() as int, j as int);
    let lead = if j == 0 {
        Seq::<char>::empty()
    } else {
        " "@
    };
    let written = parameter_items(parameters[j as int], lead);
    lemma_parameters_prefix(parameters, j + 1, total);
    lemma_sound_parameters_at(parameters, total, j as int);
    lemma_parameter_items_exist(parameters[j as int], lead);
    // the items of the element stand at its start
    assert(holds_at(items, k0, through)) by {
        assert forall|u: int| 0 <= u < through.len() implies items.subrange(
            k0,
            k0 + through.len(),
        )[u] == whole.subrange(0, through.len() as int)[u] by {
            assert(items.subrange(k0, k0 + whole.len())[u] == whole[u]);
        }
        assert(items.subrange(k0, k0 + through.len()) =~= whole.subrange(
            0,
            through.len() as int,
        ));
    }
    if j == 0 {
        assert(through == written);
    } else {
        let comma = one(Seq::<char>::empty(), TokenView::Comma);
        assert(through == before + comma + written);
        lemma_holds_split(items, k0, before + comma, written);
    }
    let k1 = k0 + through.len();
    assert(k1 == k + written.len());
    // what stands after the element: the closing token, or a comma
    lemma_reads_token(s, items, tail, k);
    lemma_reads_token(s, items, tail, k1);
    if j + 1 == total {
        lemma_parameter_reparsed(s, items, tail, k, parameters[j as int], lead);
        let element = s.parameter(k)->Ok_0.0;
        assert(parameter_texts(done.push(element)) =~= parameter_texts(done).push(parameter_text(element)));
        if plain_parameters(parameters, total) {
            lemma_plain_parameters_at(parameters, total, j as int);
            lemma_relisted_last(done, element, parameters, j as int);
        }
    } else {
        let comma = one(Seq::<char>::empty(), TokenView::Comma);
        let next = listed_parameters(parameters, j + 2);
        lemma_parameters_prefix(parameters, j + 2, total);
        lemma_parameter_items_exist(parameters[j as int + 1], " "@);
        assert(next == through + comma + parameter_items(parameters[j as int + 1], " "@));
        assert(items[k1] == whole[through.len() as int]) by {
            assert(items.subrange(k0, k0 + whole.len())[through.len() as int]
                == whole[through.len() as int]);
        }
        assert(whole[through.len() as int] == next[through.len() as int]) by {
            assert(whole.subrange(0, next.len() as int)[through.len() as int]
                == next[through.len() as int]);
        }
        assert(next[through.len() as int] == comma[0]);
        lemma_parameter_reparsed(s, items, tail, k, parameters[j as int], lead);
        let element = s.parameter(k)->Ok_0.0;
        lemma_reads_token(s, items, tail, k1 + 1);
        lemma_parameters_reparsed(s, items, tail, k0, parameters, j + 1, done.push(element));
        let again = s.parameters(k1 + 1, done.push(element))->Ok_0.0;
        assert(parameter_texts(done.push(element)) =~= parameter_texts(done).push(parameter_text(element)));
        assert(relisted(parameter_texts(done), parameter_texts(parameters), j as int, parameter_texts(again))) by {
            let more = parameter_texts(done.push(element));
            assert forall|i: int| 0 <= i < done.len() implies parameter_texts(again)[i]
                == #[trigger] parameter_texts(done)[i] by {
                assert(more[i] == parameter_texts(done)[i]);
            }
            assert forall|i: int| j <= i < total implies parameter_texts(again)[done.len() + i - j]
                == #[trigger] parameter_texts(parameters)[i] by {
                if i == j {
                    assert(more[done.len() as int] == parameter_text(element));
                }
            }
        }
        if plain_parameters(parameters, total) {
            lemma_plain_parameters_at(parameters, total, j as int);
            lemma_relisted_step(done, element, parameters, j as int, again);
        }
    }
}

/// A type in a list is read again from its items: a comma or the closing parenthesis follows.
pub proof fn lemma_type_in_list(
    s: Stream,
    items: Seq<Item>,
    tail: Seq<char>,
    k: int,
    typ: TypeView,
    lead: Seq<char>,
)
    requires
        reads(s, items, tail),
        sound_type(typ),
        holds_at(items, k, type_items(typ, lead)),
        s.at(k + type_items(typ, lead).len()).token == TokenView::Comma || s.at(
            k + type_items(typ, lead).len(),
        ).token == TokenView::RightParenthesis,
    ensures
        match s.typ(k) {
            Ok((again, k1)) => {
                &&& k1 == k + type_items(typ, lead).len()
                &&& type_text(again) == type_text(typ)
                &&& plain_type(typ) ==> again == typ
            },
            Err(_) => false,
        },
    decreases typ, 1nat,
{
    lemma_type_reparsed(s, items, tail, k, typ, lead);
}

/// A field is read again from its items, as a field with the same text.
#[verifier::rlimit(60)]
pub proof fn lemma_field_reparsed(
    s: Stream,
    items: Seq<Item>,
    tail: Seq<char>,
    k: int,
    field: FieldView,
    lead: Seq<char>,
)
    requires
        reads(s, items, tail),
        sound_field(field),
        holds_at(items, k, field_items(field, lead)),
        s.at(k + field_items(field, lead).len()).token == TokenView::Comma || s.at(
            k + field_items(field, lead).len(),
        ).token == TokenView::RightBrace,
    ensures
        match s.field(k) {
            Ok((again, k1)) => {
                &&& k1 == k + field_items(field, lead).len()
                &&& field_text(again) == field_text(field)
                &&& plain_field(field) ==> again == field
            },
            Err(_) => false,
        },
    decreases field, 0nat,
{
    let none = Seq::<char>::empty();
    let name = one(lead, TokenView::Identifier(field.name));
    let colon = one(none, TokenView::Colon);
    let typ = type_items(field.typ, " "@);
    let default = match field.default {
        Some(value) => one(" "@, TokenView::Assign) + expression_items(value, " "@),
        None => Seq::<Item>::empty(),
    };
    lemma_holds_split(items, k, name + colon + typ, default);
    lemma_holds_split(items, k, name + colon, typ);
    lemma_holds_split(items, k, name, colon);
    lemma_holds_one(items, k, lead, TokenView::Identifier(field.name));
    lemma_holds_one(items, k + 1, none, TokenView::Colon);
    lemma_reads_token(s, items, tail, k);
    lemma_reads_token(s, items, tail, k + 1);
    let k3 = k + 2 + typ.len();
    lemma_reads_token(s, items, tail, k3);
    match field.default {
        Some(value) => {
            let assign = one(" "@, TokenView::Assign);
            let written = expression_items(value, " "@);
            lemma_holds_split(items, k3, assign, written);
            lemma_holds_one(items, k3, " "@, TokenView::Assign);
            lemma_type_reparsed(s, items, tail, k + 2, field.typ, " "@);
            lemma_reads_token(s, items, tail, k3 + 1);
            lemma_reads_token(s, items, tail, k3 + 1 + written.len());
            lemma_expression_reparsed(s, items, tail, k3 + 1, value, " "@);
        },
        None => {
            assert(name + colon + typ + default =~= name + colon + typ);
            lemma_type_reparsed(s, items, tail, k + 2, field.typ, " "@);
        },
    }
}

/// A parameter is read again from its items, as a parameter with the same text.
pub proof fn lemma_parameter_reparsed(
    s: Stream,
    items: Seq<Item>,
    tail: Seq<char>,
    k: int,
    parameter: ParameterView,
    lead: Seq<char>,
)
    requires
        reads(s, items, tail),
        sound_parameter(parameter),
        holds_at(items, k, parameter_items(parameter, lead)),
        s.at(k + parameter_items(parameter, lead).len()).token != TokenView::Colon,
    ensures
        match s.parameter(k) {
            Ok((again, k1)) => {
                &&& k1 == k + parameter_items(parameter, lead).len()
                &&& parameter_text(again) == parameter_text(parameter)
                &&& plain_parameter(parameter) ==> again == parameter
            },
            Err(_) => false,
        },
    decreases parameter, 0nat,
{
    let none = Seq::<char>::empty();
    let name = one(lead, TokenView::Identifier(parameter.name));
    let colon = one(none, TokenView::Colon);
    let typ = type_items(parameter.typ, " "@);
    lemma_holds_split(items, k, name + colon, typ);
    lemma_holds_split(items, k, name, colon);
    lemma_holds_one(items, k, lead, TokenView::Identifier(parameter.name));
    lemma_holds_one(items, k + 1, none, TokenView::Colon);
    lemma_reads_token(s, items, tail, k);
    lemma_reads_token(s, items, tail, k + 1);
    lemma_type_reparsed(s, items, tail, k + 2, parameter.typ, " "@);
}

/// What follows the name in a function's head is read again from its items.
#[verifier::rlimit(60)]
pub proof fn lemma_signature_reparsed(
    s: Stream,
    items: Seq<Item>,
    tail: Seq<char>,
    k: int,
    function: FunctionTypeView,
    lead: Seq<char>,
)
    requires
        reads(s, items, tail),
        sound_function_type(function),
        holds_at(items, k, signature_items(function, lead)),
        s.at(k + signature_items(function, lead).len()).token != TokenView::Colon,
    ensures
        match s.signature(k) {
            Ok((again, k1)) => {
                &&& k1 == k + signature_items(function, lead).len()
                &&& parameters_text(again.parameters) == parameters_text(function.parameters)
                &&& return_type_text(again.return_type) == return_type_text(
                    function.return_type,
                )
                &&& plain_function_type(function) ==> again == function
            },
            Err(_) => false,
        },
    decreases function, 0nat,
{
    let none = Seq::<char>::empty();
    let parameters = function.parameters;
    let open = one(lead, TokenView::LeftParenthesis);
    let list = listed_parameters(parameters, parameters.len());
    let close = one(none, TokenView::RightParenthesis);
    let returned = return_type_items(function.return_type);
    lemma_holds_split(items, k, open + list + close, returned);
    lemma_holds_split(items, k, open + list, close);
    lemma_holds_split(items, k, open, list);
    lemma_holds_one(items, k, lead, TokenView::LeftParenthesis);
    let k2 = k + 1 + list.len();
    lemma_holds_one(items, k2, none, TokenView::RightParenthesis);
    lemma_reads_token(s, items, tail, k);
    lemma_reads_token(s, items, tail, k + 1);
    lemma_reads_token(s, items, tail, k2);
    lemma_reads_token(s, items, tail, k2 + 1);
    if parameters.len() > 0 {
        lemma_parameters_reparsed(s, items, tail, k + 1, parameters, 0, Seq::empty());
        let again = s.parameters(k + 1, Seq::empty())->Ok_0.0;
        lemma_relisted_all(
            parameter_texts(Seq::empty()),
            parameter_texts(parameters),
            parameter_texts(again),
        );
        if plain_function_type(function) {
            lemma_relisted_all(Seq::empty(), parameters, again);
        }
    } else {
        assert(parameter_texts(Seq::<ParameterView>::empty()) =~= parameter_texts(parameters));
        assert(parameters =~= Seq::<ParameterView>::empty());
    }
    match function.return_type {
        Some(typ) => {
            let colon = one(none, TokenView::Colon);
            lemma_holds_split(items, k2 + 1, colon, type_items(*typ, " "@));
            lemma_holds_one(items, k2 + 1, none, TokenView::Colon);
            lemma_reads_token(s, items, tail, k2 + 2);
            lemma_type_reparsed(s, items, tail, k2 + 2, *typ, " "@);
        },
        None => {},
    }
}

} // verus!
