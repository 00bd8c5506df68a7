//! Names of what a collection persists.
//!
//! A collection id is any string. The table store takes names that differ
//! only in case for one name and reads some characters as syntax, and a file
//! system reads some as paths; so an id is never part of a name as it is.
//! Each of its characters is written as the six hexadecimal digits of its
//! code point, in lower case. Names made of these digits are plain, and two
//! ids have the same name only if they are the same id.
use vstd::prelude::*;
use vstd::string::*;

verus! {

/// The digit that stands for `n`, which is less than 16.
pub open spec fn hex_digit(n: int) -> char {
    if n == 0 {
        '0'
    } else if n == 1 {
        '1'
    } else if n == 2 {
        '2'
    } else if n == 3 {
        '3'
    } else if n == 4 {
        '4'
    } else if n == 5 {
        '5'
    } else if n == 6 {
        '6'
    } else if n == 7 {
        '7'
    } else if n == 8 {
        '8'
    } else if n == 9 {
        '9'
    } else if n == 10 {
        'a'
    } else if n == 11 {
        'b'
    } else if n == 12 {
        'c'
    } else if n == 13 {
        'd'
    } else if n == 14 {
        'e'
    } else {
        'f'
    }
}

/// The hexadecimal digit of `code` at `place`, place 0 being the last.
pub open spec fn nibble(code: int, place: int) -> int {
    if place == 0 {
        code % 16
    } else if place == 1 {
        (code / 16) % 16
    } else if place == 2 {
        (code / 256) % 16
    } else if place == 3 {
        (code / 4096) % 16
    } else if place == 4 {
        (code / 65536) % 16
    } else {
        (code / 1048576) % 16
    }
}

/// The six digits of the code point of `c`, the first digit first.
pub open spec fn char_digits(c: char) -> Seq<char> {
    Seq::new(6, |p: int| hex_digit(nibble(c as int, 5 - p)))
}

/// A collection id as it stands in names: the digits of its characters, one
/// character after the other.
pub open spec fn encoded(collection: Seq<char>) -> Seq<char> {
    Seq::new(6 * collection.len(), |i: int| hex_digit(nibble(collection[i / 6] as int, 5 - i % 6)))
}

/// Whether `c` is a digit or one of the letters a to f in lower case.
pub open spec fn plain(c: char) -> bool {
    ('0' <= c <= '9') || ('a' <= c <= 'f')
}

/// Name of the table that holds the rows of collection `collection`.
pub open spec fn table_name_of(collection: Seq<char>) -> Seq<char> {
    "chunks_"@ + encoded(collection)
}

/// Name of the file that holds the index snapshot of collection `collection`.
pub open spec fn snapshot_file_of(collection: Seq<char>) -> Seq<char> {
    encoded(collection) + ".usearch"@
}

/// The digit that stands for `n`.
fn digit(n: u32) -> (text: &'static str)
    requires
        n < 16,
    ensures
        text@ == seq![hex_digit(n as int)],
{
    proof {
        reveal_strlit("0");
        reveal_strlit("1");
        reveal_strlit("2");
        reveal_strlit("3");
        reveal_strlit("4");
        reveal_strlit("5");
        reveal_strlit("6");
        reveal_strlit("7");
        reveal_strlit("8");
        reveal_strlit("9");
        reveal_strlit("a");
        reveal_strlit("b");
        reveal_strlit("c");
        reveal_strlit("d");
        reveal_strlit("e");
        reveal_strlit("f");
    }
    let text = if n == 0 {
        "0"
    } else if n == 1 {
        "1"
    } else if n == 2 {
        "2"
    } else if n == 3 {
        "3"
    } else if n == 4 {
        "4"
    } else if n == 5 {
        "5"
    } else if n == 6 {
        "6"
    } else if n == 7 {
        "7"
    } else if n == 8 {
        "8"
    } else if n == 9 {
        "9"
    } else if n == 10 {
        "a"
    } else if n == 11 {
        "b"
    } else if n == 12 {
        "c"
    } else if n == 13 {
        "d"
    } else if n == 14 {
        "e"
    } else {
        "f"
    };
    assert(text@ =~= seq![hex_digit(n as int)]);
    text
}

/// Appends the six digits of the code point of `c` to `name`.
fn append_digits(name: String, c: char) -> (longer: String)
    ensures
        longer@ == name@ + char_digits(c),
{
    let code: u32 = c as u32;
    let longer = name.concat(digit((code / 1048576) % 16)).concat(digit((code / 65536) % 16)).concat(
        digit((code / 4096) % 16),
    ).concat(digit((code / 256) % 16)).concat(digit((code / 16) % 16)).concat(digit(code % 16));
    assert(longer@ =~= name@ + char_digits(c));
    longer
}

/// A collection id as it stands in names.
pub fn encode(collection: &str) -> (name: String)
    ensures
        name@ == encoded(collection@),
{
    let len: usize = collection.unicode_len();
    let mut name = String::new();
    let mut i: usize = 0;
    while i < len
        invariant
            i <= len,
            len == collection@.len(),
            name@ == encoded(collection@.take(i as int)),
        decreases len - i,
    {
        let c = collection.get_char(i);
        proof {
            lemma_encoded_push(collection@.take(i as int), c);
            assert(collection@.take(i as int).push(c) =~= collection@.take(i + 1));
        }
        name = append_digits(name, c);
        i = i + 1;
    }
    proof {
        assert(collection@.take(i as int) =~= collection@);
    }
    name
}

/// Name of the table that holds the rows of collection `collection`.
pub fn table_name(collection: &str) -> (name: String)
    ensures
        name@ == table_name_of(collection@),
{
    String::from_str("chunks_").concat(encode(collection).as_str())
}

/// Name of the file that holds the index snapshot of collection `collection`.
pub fn snapshot_file(collection: &str) -> (name: String)
    ensures
        name@ == snapshot_file_of(collection@),
{
    encode(collection).concat(".usearch")
}

/// An id with one more character is written with six more digits.
pub proof fn lemma_encoded_push(collection: Seq<char>, c: char)
    ensures
        encoded(collection.push(c)) == encoded(collection) + char_digits(c),
{
    let longer = collection.push(c);
    assert forall|i: int| 0 <= i < 6 * longer.len() implies #[trigger] encoded(longer)[i] == (
    encoded(collection) + char_digits(c))[i] by {
        if i < 6 * collection.len() {
            assert(i / 6 < collection.len());
            assert(longer[i / 6] == collection[i / 6]);
        } else {
            let p = i - 6 * collection.len();
            assert(i / 6 == collection.len());
            assert(i % 6 == p);
            assert(longer[i / 6] == c);
        }
    }
    assert(encoded(longer) =~= encoded(collection) + char_digits(c));
}

/// Names are plain: every character of an id as it stands in names is a
/// digit or one of the letters a to f in lower case, whatever the id holds.
/// Such a name holds nothing that a table store reads as syntax or a file
/// system as a path, and two such names that differ, differ without regard
/// to case too.
pub proof fn lemma_encoded_is_plain(collection: Seq<char>, i: int)
    requires
        0 <= i < encoded(collection).len(),
    ensures
        plain(encoded(collection)[i]),
        encoded(collection).len() == 6 * collection.len(),
{
    let n = nibble(collection[i / 6] as int, 5 - i % 6);
    assert(0 <= n < 16);
}

/// A number below 16 is told by its digit.
proof fn lemma_digit_tells(m: int, n: int)
    requires
        0 <= m < 16,
        0 <= n < 16,
        hex_digit(m) == hex_digit(n),
    ensures
        m == n,
{
}

/// A code point is the sum of its six digits, each at its place.
proof fn lemma_code_of_digits(code: u32)
    requires
        code < 0x1000000,
    ensures
        code == nibble(code as int, 0) + 16 * nibble(code as int, 1) + 256 * nibble(code as int, 2)
            + 4096 * nibble(code as int, 3) + 65536 * nibble(code as int, 4) + 1048576 * nibble(
            code as int,
            5,
        ),
{
    assert(code == (code % 16) + 16 * ((code / 16) % 16) + 256 * ((code / 256) % 16) + 4096 * ((code
        / 4096) % 16) + 65536 * ((code / 65536) % 16) + 1048576 * ((code / 1048576) % 16))
        by (bit_vector)
        requires
            code < 0x1000000,
    ;
}

/// A code point is told by its six digits.
proof fn lemma_digits_tell(a: char, b: char)
    requires
        forall|p: int| 0 <= p < 6 ==> hex_digit(nibble(a as int, p)) == hex_digit(
            #[trigger] nibble(b as int, p),
        ),
    ensures
        a == b,
{
    let x = a as u32;
    let y = b as u32;
    assert(x < 0x110000 && y < 0x110000);
    assert forall|p: int| 0 <= p < 6 implies nibble(x as int, p) == #[trigger] nibble(
        y as int,
        p,
    ) by {
        lemma_digit_tells(nibble(x as int, p), nibble(y as int, p));
    }
    assert(nibble(x as int, 0) == nibble(y as int, 0));
    assert(nibble(x as int, 1) == nibble(y as int, 1));
    assert(nibble(x as int, 2) == nibble(y as int, 2));
    assert(nibble(x as int, 3) == nibble(y as int, 3));
    assert(nibble(x as int, 4) == nibble(y as int, 4));
    assert(nibble(x as int, 5) == nibble(y as int, 5));
    lemma_code_of_digits(x);
    lemma_code_of_digits(y);
    assert(x == y);
}

/// Two ids are written alike only if they are the same id.
pub proof fn lemma_encoded_distinct(a: Seq<char>, b: Seq<char>)
    requires
        encoded(a) == encoded(b),
    ensures
        a == b,
{
    assert(encoded(a).len() == 6 * a.len());
    assert(encoded(b).len() == 6 * b.len());
    assert(a.len() == b.len());
    assert forall|j: int| 0 <= j < a.len() implies a[j] == b[j] by {
        assert forall|p: int| 0 <= p < 6 implies hex_digit(nibble(a[j] as int, p)) == hex_digit(
            #[trigger] nibble(b[j] as int, p),
        ) by {
            let i = 6 * j + (5 - p);
            assert(i / 6 == j);
            assert(i % 6 == 5 - p);
            assert(encoded(a)[i] == hex_digit(nibble(a[j] as int, p)));
            assert(encoded(b)[i] == hex_digit(nibble(b[j] as int, p)));
        }
        lemma_digits_tell(a[j], b[j]);
    }
    assert(a =~= b);
}

/// Two collections share a table only if they are the same collection.
pub proof fn lemma_table_names_distinct(a: Seq<char>, b: Seq<char>)
    requires
        table_name_of(a) == table_name_of(b),
    ensures
        a == b,
{
    let prefix = "chunks_"@;
    let x = encoded(a);
    let y = encoded(b);
    assert(x =~= (prefix + x).subrange(prefix.len() as int, (prefix + x).len() as int));
    assert(y =~= (prefix + y).subrange(prefix.len() as int, (prefix + y).len() as int));
    lemma_encoded_distinct(a, b);
}

/// Two collections share a snapshot file only if they are the same
/// collection.
pub proof fn lemma_snapshot_files_distinct(a: Seq<char>, b: Seq<char>)
    requires
        snapshot_file_of(a) == snapshot_file_of(b),
    ensures
        a == b,
{
    let suffix = ".usearch"@;
    let x = encoded(a);
    let y = encoded(b);
    assert((x + suffix).len() == x.len() + suffix.len());
    assert((y + suffix).len() == y.len() + suffix.len());
    assert(x =~= (x + suffix).subrange(0, x.len() as int));
    assert(y =~= (y + suffix).subrange(0, y.len() as int));
    lemma_encoded_distinct(a, b);
}

/// A character as a store that takes no account of case reads it: a letter
/// from A to Z as the same letter in lower case, any other as it is.
pub open spec fn folded(c: char) -> char {
    if 'A' <= c <= 'Z' {
        ((c as int) + 32) as char
    } else {
        c
    }
}

/// Whether two names are the same to a store that takes no account of case.
pub open spec fn same_without_case(x: Seq<char>, y: Seq<char>) -> bool {
    &&& x.len() == y.len()
    &&& forall|i: int| 0 <= i < x.len() ==> folded(#[trigger] x[i]) == folded(y[i])
}

/// A table store that takes no account of case keeps the tables of two
/// collections apart all the same: the names of their tables are the same
/// to it only if the collections are the same, whatever the case of the
/// letters in their ids.
pub proof fn lemma_table_names_distinct_without_case(a: Seq<char>, b: Seq<char>)
    requires
        same_without_case(table_name_of(a), table_name_of(b)),
    ensures
        a == b,
{
    let prefix = "chunks_"@;
    let x = encoded(a);
    let y = encoded(b);
    assert((prefix + x).len() == prefix.len() + x.len());
    assert((prefix + y).len() == prefix.len() + y.len());
    assert forall|i: int| 0 <= i < x.len() implies x[i] == y[i] by {
        let at = prefix.len() + i;
        assert((prefix + x)[at] == x[i]);
        assert((prefix + y)[at] == y[i]);
        assert(folded(table_name_of(a)[at]) == folded(table_name_of(b)[at]));
        lemma_encoded_is_plain(a, i);
        lemma_encoded_is_plain(b, i);
    }
    assert(x =~= y);
    lemma_encoded_distinct(a, b);
}

/// Whether `c` may stand in a name that a table store takes as it is: a
/// letter in lower case, a digit, or the underscore.
pub open spec fn in_identifier(c: char) -> bool {
    ('a' <= c <= 'z') || ('0' <= c <= '9') || c == '_'
}

/// The name of a table is a name that a table store takes as it is,
/// whatever the id holds: it begins with a letter and holds nothing but
/// letters in lower case, digits and the underscore.
pub proof fn lemma_table_name_is_an_identifier(collection: Seq<char>)
    ensures
        table_name_of(collection).len() == 7 + 6 * collection.len(),
        table_name_of(collection)[0] == 'c',
        forall|i: int|
            0 <= i < table_name_of(collection).len() ==> in_identifier(
                #[trigger] table_name_of(collection)[i],
            ),
{
    reveal_strlit("chunks_");
    let prefix = "chunks_"@;
    let name = table_name_of(collection);
    assert(prefix.len() == 7);
    assert forall|i: int| 0 <= i < name.len() implies in_identifier(#[trigger] name[i]) by {
        if i >= 7 {
            assert(name[i] == encoded(collection)[i - 7]);
            lemma_encoded_is_plain(collection, i - 7);
        } else {
            assert(name[i] == prefix[i]);
        }
    }
}

} // verus!
