//! The names of profiles and secrets.

use vstd::prelude::*;
use vstd::utf8::encode_utf8;

use crate::error::{outcome, Error, ErrorModel, Fault};
use crate::text::{characters, control, is_control, same_text};

verus! {

broadcast use vstd::string::group_string_axioms;

/// The most bytes that a name may take.
pub const NAME_LIMIT: usize = 128;

/// Whether a text may name a profile or a secret, and what is wrong with it if not.
pub open spec fn name_check(name: Seq<char>, kind: Seq<char>) -> Result<(), ErrorModel> {
    if name.len() == 0 {
        Err(Fault::NameEmpty { kind })
    } else if encode_utf8(name).len() > NAME_LIMIT {
        Err(Fault::NameTooLong { kind })
    } else if name == "."@ || name == ".."@ || exists|i: int|
        0 <= i < name.len() && control(#[trigger] name[i]) {
        Err(Fault::NameInvalid { kind })
    } else {
        Ok(())
    }
}

/// Checks a name; `kind` says in an error what it should name.
pub fn validate_name(name: &str, kind: &str) -> (r: Result<(), Error>)
    ensures
        outcome(r) == name_check(name@, kind@),
{
    if name.is_empty() {
        return Err(Fault::NameEmpty { kind: kind.to_owned() });
    }
    if name.as_bytes().len() > NAME_LIMIT {
        return Err(Fault::NameTooLong { kind: kind.to_owned() });
    }
    if same_text(name, ".") || same_text(name, "..") {
        return Err(Fault::NameInvalid { kind: kind.to_owned() });
    }
    let characters = characters(name);
    let mut index: usize = 0;
    while index < characters.len()
        invariant
            characters@ == name@,
            index <= name@.len(),
            name@.len() > 0,
            encode_utf8(name@).len() <= NAME_LIMIT,
            name@ != "."@,
            name@ != ".."@,
            forall|i: int| 0 <= i < index ==> !control(#[trigger] name@[i]),
        decreases characters.len() - index,
    {
        if is_control(characters[index]) {
            assert(control(name@[index as int]));
            return Err(Fault::NameInvalid { kind: kind.to_owned() });
        }
        index += 1;
    }
    Ok(())
}

/// The ending of a noun for `count` things.
pub open spec fn plural_ending(count: nat) -> Seq<char> {
    if count == 1 {
        ""@
    } else {
        "s"@
    }
}

/// The ending of a noun for `count` things.
pub fn plural(count: usize) -> (r: &'static str)
    ensures
        r@ == plural_ending(count as nat),
{
    if count == 1 {
        ""
    } else {
        "s"
    }
}

/// A text may name a profile or a secret exactly if it is not empty, takes at most 128 bytes in
/// UTF-8, is neither one dot nor two, and holds no character from U+0000 to U+001F or from U+007F
/// to U+009F. What is refused is refused for the first of these reasons that holds, and the error
/// says what it should have named.
pub proof fn law_names_are_accepted_for_what_they_hold(name: Seq<char>, kind: Seq<char>)
    ensures
        ({
            let sound = forall|i: int|
                0 <= i < name.len() ==> {
                    let code = (#[trigger] name[i]) as int;
                    32 <= code < 127 || 160 <= code
                };
            let dots = name == seq!['.'] || name == seq!['.', '.'];
            let answer = name_check(name, kind);
            &&& answer is Ok <==> 0 < name.len() && encode_utf8(name).len() <= 128 && !dots && sound
            &&& name.len() == 0 <==> answer == Err::<(), ErrorModel>(Fault::NameEmpty { kind })
            &&& name.len() > 0 && encode_utf8(name).len() > 128 <==> answer == Err::<
                (),
                ErrorModel,
            >(Fault::NameTooLong { kind })
            &&& answer is Err && name.len() > 0 && encode_utf8(name).len() <= 128 ==> answer
                == Err::<(), ErrorModel>(Fault::NameInvalid { kind })
        }),
{
    reveal_strlit(".");
    reveal_strlit("..");
    assert("."@ =~= seq!['.']);
    assert(".."@ =~= seq!['.', '.']);
    if forall|i: int|
        0 <= i < name.len() ==> {
            let code = (#[trigger] name[i]) as int;
            32 <= code < 127 || 160 <= code
        } {
        assert forall|i: int| 0 <= i < name.len() implies !control(#[trigger] name[i]) by {
            let code = name[i] as int;
            assert(32 <= code < 127 || 160 <= code);
        }
    } else {
        let i = choose|i: int|
            0 <= i < name.len() && !({
                let code = (#[trigger] name[i]) as int;
                32 <= code < 127 || 160 <= code
            });
        assert(control(name[i]));
    }
}

/// A noun takes an `s` for every number of things but one.
pub proof fn law_nouns_end_by_number(count: nat)
    ensures
        count == 1 ==> plural_ending(count) == Seq::<char>::empty(),
        count != 1 ==> plural_ending(count) == seq!['s'],
{
    reveal_strlit("");
    reveal_strlit("s");
    assert(""@ =~= Seq::<char>::empty());
    assert("s"@ =~= seq!['s']);
}

} // verus!
