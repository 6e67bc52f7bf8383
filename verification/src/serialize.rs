//! Serialization of records to JSON objects whose values are all strings.

use vstd::prelude::*;
use vstd::string::*;

verus! {

/// One member of an object: the key and the value, each between double
/// quotes, with a colon and a space between them.
pub open spec fn json_member(key: Seq<char>, value: Seq<char>) -> Seq<char> {
    seq!['"'] + key + seq!['"', ':', ' ', '"'] + value + seq!['"']
}

/// The members of `pairs` in their order, a comma and a space between two.
pub open spec fn json_members(pairs: Seq<(Seq<char>, Seq<char>)>) -> Seq<char>
    decreases pairs.len(),
{
    if pairs.len() == 0 {
        Seq::empty()
    } else if pairs.len() == 1 {
        json_member(pairs[0].0, pairs[0].1)
    } else {
        json_members(pairs.drop_last()) + seq![',', ' '] + json_member(
            pairs.last().0,
            pairs.last().1,
        )
    }
}

/// The keys and values of `pairs` as sequences of characters.
pub open spec fn text_pairs(pairs: Seq<(&str, &str)>) -> Seq<(Seq<char>, Seq<char>)> {
    Seq::new(pairs.len(), |i: int| (pairs[i].0@, pairs[i].1@))
}

/// The object with the members of `pairs`, on one line. Nothing is escaped:
/// keys and values are taken to hold neither a double quote, a backslash nor a
/// control character.
pub open spec fn json_object(pairs: Seq<(Seq<char>, Seq<char>)>) -> Seq<char> {
    seq!['{'] + json_members(pairs) + seq!['}']
}

/// This trait defines a method for converting a struct to a JSON string.
pub trait Json {
    fn to_json(&self) -> String;
}

/// Writes the object with the members of `pairs`, keys and values as they are.
pub fn write_object(pairs: &[(&str, &str)]) -> (s: String)
    ensures
        s@ == json_object(text_pairs(pairs@)),
{
    let mut s = String::new();
    s.append("{");
    proof {
        reveal_strlit("{");
        reveal_strlit("}");
        reveal_strlit(", ");
        reveal_strlit("\"");
        reveal_strlit("\": \"");
        assert(text_pairs(pairs@).take(0) =~= Seq::empty());
        assert(s@ =~= seq!['{'] + json_members(text_pairs(pairs@).take(0)));
    }
    let mut i: usize = 0;
    while i < pairs.len()
        invariant
            i <= pairs@.len(),
            s@ == seq!['{'] + json_members(text_pairs(pairs@).take(i as int)),
        decreases pairs@.len() - i,
    {
        let (key, value) = pairs[i];
        let ghost before = s@;
        if i > 0 {
            s.append(", ");
        }
        s.append("\"");
        s.append(key);
        s.append("\": \"");
        s.append(value);
        s.append("\"");
        proof {
            reveal_strlit(", ");
            reveal_strlit("\"");
            reveal_strlit("\": \"");
            let next = text_pairs(pairs@).take(i + 1);
            assert(next.drop_last() =~= text_pairs(pairs@).take(i as int));
            assert(next.last() == (key@, value@));
            assert("\": \""@ =~= seq!['"', ':', ' ', '"']);
            assert("\""@ =~= seq!['"']);
            assert(", "@ =~= seq![',', ' ']);
            assert(s@ =~= seq!['{'] + json_members(next));
        }
        i += 1;
    }
    s.append("}");
    proof {
        reveal_strlit("}");
        assert(text_pairs(pairs@).take(i as int) =~= text_pairs(pairs@));
        assert(s@ =~= json_object(text_pairs(pairs@)));
    }
    s
}

} // verus!
