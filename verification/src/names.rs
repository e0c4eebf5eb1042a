//! The identifiers of the generated items.

use vstd::prelude::*;
use vstd::string::*;

verus! {

/// The class case of an identifier, as the `inflector` crate writes it.
pub uninterp spec fn class_case(name: Seq<char>) -> Seq<char>;

/// The snake case of an identifier, as the `inflector` crate writes it.
pub uninterp spec fn snake_case(name: Seq<char>) -> Seq<char>;

/// `inflector::cases::classcase::to_class_case` turns its argument into class
/// case (`foo_bars` into `FooBar`): the words capitalised and joined, the last
/// one in the singular. The result depends on the argument alone, and the
/// contract only gives it its name.
pub assume_specification[ inflector::cases::classcase::to_class_case ](
    non_class_case_string: &str,
) -> (class: String)
    ensures
        class@ == class_case(non_class_case_string@),
;

/// `inflector::cases::snakecase::to_snake_case` turns its argument into snake
/// case (`FooBar` into `foo_bar`). The result depends on the argument alone,
/// and the contract only gives it its name.
pub assume_specification[ inflector::cases::snakecase::to_snake_case ](
    non_snake_case_string: &str,
) -> (snake: String)
    ensures
        snake@ == snake_case(non_snake_case_string@),
;

/// `prefix`, then `name`, then `suffix`.
pub fn affixed(prefix: &str, name: &str, suffix: &str) -> (out: String)
    ensures
        out@ == prefix@ + name@ + suffix@,
{
    let mut out = String::from_str(prefix);
    out.append(name);
    out.append(suffix);
    out
}

/// The name of the builder struct's type parameter for a field, from the class
/// case of the field's name.
pub fn generic_type_name(class_name: &str) -> (name: String)
    ensures
        name@ == class_name@ + "Builder_"@,
{
    let name = affixed("", class_name, "Builder_");
    proof {
        reveal_strlit("");
        assert(""@ + class_name@ =~= class_name@);
    }
    name
}

pub open spec fn builder_generic_name_of(field_name: Seq<char>) -> Seq<char> {
    class_case(field_name) + "Builder_"@
}

/// The name of the builder struct's type parameter for the field `field_name`.
pub fn builder_generic_name(field_name: &str) -> (name: String)
    ensures
        name@ == builder_generic_name_of(field_name@),
{
    let class_name = inflector::cases::classcase::to_class_case(field_name);
    generic_type_name(class_name.as_str())
}

/// The name of the module that holds the generated items, from the snake case
/// of the struct's name.
pub fn impl_module_name(snake_name: &str) -> (name: String)
    ensures
        name@ == "ouroboros_impl_"@ + snake_name@,
{
    let name = affixed("ouroboros_impl_", snake_name, "");
    proof {
        reveal_strlit("");
        assert("ouroboros_impl_"@ + snake_name@ + ""@ =~= "ouroboros_impl_"@ + snake_name@);
    }
    name
}

pub open spec fn module_name_of(struct_name: Seq<char>) -> Seq<char> {
    "ouroboros_impl_"@ + snake_case(struct_name)
}

/// The name of the module that holds the items generated for `struct_name`.
pub fn module_name(struct_name: &str) -> (name: String)
    ensures
        name@ == module_name_of(struct_name@),
{
    let snake_name = inflector::cases::snakecase::to_snake_case(struct_name);
    impl_module_name(snake_name.as_str())
}

} // verus!
