//! Parsing of the header of a native kernel: `fn name(arg: RustType | EdslType, ...) ->
//! RustType | EdslType { "path" }`.  The tokens come with the text their token streams print
//! as.
use vstd::prelude::*;
use vstd::string::{StrSliceExecFns, StringExecFns};

verus! {

/// One argument of a kernel: its name, its Rust type and its eDSL type.
pub struct ParsedKernelArgument {
    pub name: String,
    pub rust_type: String,
    pub edsl_type: String,
}

/// A parsed kernel header.
pub struct ParsedKernel {
    pub function_name: String,
    pub arguments: Vec<ParsedKernelArgument>,
    pub file_path: String,
    pub rust_return_type: String,
    pub edsl_return_type: String,
}

/// The delimiter of a group of tokens.
#[derive(Clone, Copy, Debug, PartialEq, Eq, Structural)]
pub enum Delimiter {
    Parenthesis,
    Brace,
    Bracket,
    /// An invisible delimiter.
    Invisible,
}

/// A token tree of the kernel source.
pub enum KernelToken {
    Ident(String),
    /// A delimited group, with the text of its inner token stream.
    Group(Delimiter, String),
    Other(String),
}

/// A whitespace character, as Unicode defines it.
pub open spec fn is_ws(c: char) -> bool {
    let u = c as u32;
    (0x9 <= u && u <= 0xd) || u == 0x20 || u == 0x85 || u == 0xa0 || u == 0x1680 || (0x2000 <= u
        && u <= 0x200a) || u == 0x2028 || u == 0x2029 || u == 0x202f || u == 0x205f || u == 0x3000
}

fn is_ws_exec(c: char) -> (r: bool)
    ensures
        r == is_ws(c),
{
    let u = c as u32;
    (0x9 <= u && u <= 0xd) || u == 0x20 || u == 0x85 || u == 0xa0 || u == 0x1680 || (0x2000 <= u
        && u <= 0x200a) || u == 0x2028 || u == 0x2029 || u == 0x202f || u == 0x205f || u == 0x3000
}

/// The number of whitespace characters at the start of `s`.
pub open spec fn lead_ws(s: Seq<char>) -> nat
    decreases s.len(),
{
    if s.len() > 0 && is_ws(s[0]) {
        1 + lead_ws(s.drop_first())
    } else {
        0
    }
}

/// The number of whitespace characters at the end of `s`.
pub open spec fn trail_ws(s: Seq<char>) -> nat
    decreases s.len(),
{
    if s.len() > 0 && is_ws(s.last()) {
        1 + trail_ws(s.drop_last())
    } else {
        0
    }
}

/// `s` without leading and trailing whitespace.
pub open spec fn trim(s: Seq<char>) -> Seq<char> {
    let t = s.skip(lead_ws(s) as int);
    t.take(t.len() - trail_ws(t))
}

/// The first position of `c` in `s`.
pub open spec fn find(s: Seq<char>, c: char) -> Option<int>
    decreases s.len(),
{
    if s.len() == 0 {
        None
    } else if s[0] == c {
        Some(0)
    } else {
        match find(s.drop_first(), c) {
            Some(i) => Some(i + 1),
            None => None,
        }
    }
}

/// The parts of `s` between commas.
pub open spec fn split_commas(s: Seq<char>) -> Seq<Seq<char>>
    decreases s.len(),
{
    match find(s, ',') {
        Some(i) => {
            proof {
                lemma_find_bounds(s, ',');
            }
            seq![s.take(i)] + split_commas(s.skip(i + 1))
        },
        None => seq![s],
    }
}

/// An argument the parser accepts: it has a `:`, then a `|` after it.
pub open spec fn argument_ok(a: Seq<char>) -> bool {
    let t = trim(a);
    find(t, ':') is Some && find(t, '|') is Some && find(t, ':')->0 < find(t, '|')->0
}

/// The name, Rust type and eDSL type of an argument.
pub open spec fn argument_spec(a: Seq<char>) -> (Seq<char>, Seq<char>, Seq<char>) {
    let t = trim(a);
    let colon = find(t, ':')->0;
    let bar = find(t, '|')->0;
    (trim(t.take(colon)), trim(t.subrange(colon + 1, bar)), trim(t.skip(bar + 1)))
}

pub proof fn lemma_find_bounds(s: Seq<char>, c: char)
    ensures
        find(s, c) matches Some(i) ==> 0 <= i < s.len() && s[i] == c && forall|j: int|
            0 <= j < i ==> s[j] != c,
        find(s, c) is None ==> forall|j: int| 0 <= j < s.len() ==> s[j] != c,
    decreases s.len(),
{
    if s.len() > 0 {
        lemma_find_bounds(s.drop_first(), c);
        if s[0] != c {
            assert forall|j: int| 0 < j < s.len() implies s[j] == s.drop_first()[j - 1] by {}
        }
    }
}

proof fn lemma_find_unique(s: Seq<char>, c: char, i: int)
    requires
        0 <= i < s.len(),
        s[i] == c,
        forall|j: int| 0 <= j < i ==> s[j] != c,
    ensures
        find(s, c) == Some(i),
{
    lemma_find_bounds(s, c);
}

/// The first position of `c` in `s` from `start` on.
fn find_from(s: &str, c: char, start: usize) -> (r: Option<usize>)
    requires
        start <= s@.len(),
    ensures
        r matches Some(i) ==> start <= i < s@.len() && s@[i as int] == c && forall|j: int|
            start <= j < i ==> s@[j] != c,
        r is None ==> forall|j: int| start <= j < s@.len() ==> s@[j] != c,
{
    let n = s.unicode_len();
    let mut i = start;
    while i < n
        invariant
            start <= i <= n,
            n == s@.len(),
            forall|j: int| start <= j < i ==> s@[j] != c,
        decreases n - i,
    {
        if s.get_char(i) == c {
            return Some(i);
        }
        i = i + 1;
    }
    None
}

proof fn lemma_lead_ws(s: Seq<char>, k: int)
    requires
        0 <= k <= s.len(),
        forall|j: int| 0 <= j < k ==> is_ws(s[j]),
        k == s.len() || !is_ws(s[k]),
    ensures
        lead_ws(s) == k,
    decreases k,
{
    if k > 0 {
        lemma_lead_ws(s.drop_first(), k - 1);
    }
}

proof fn lemma_trail_ws(s: Seq<char>, k: int)
    requires
        0 <= k <= s.len(),
        forall|j: int| s.len() - k <= j < s.len() ==> is_ws(s[j]),
        k == s.len() || !is_ws(s[s.len() - k - 1]),
    ensures
        trail_ws(s) == k,
    decreases k,
{
    if k > 0 {
        lemma_trail_ws(s.drop_last(), k - 1);
    }
}

/// `s` without leading and trailing whitespace.
pub fn trim_str(s: &str) -> (r: String)
    ensures
        r@ == trim(s@),
{
    let n = s.unicode_len();
    let mut a: usize = 0;
    while a < n && is_ws_exec(s.get_char(a))
        invariant
            a <= n,
            n == s@.len(),
            forall|j: int| 0 <= j < a ==> is_ws(s@[j]),
        decreases n - a,
    {
        a = a + 1;
    }
    proof {
        lemma_lead_ws(s@, a as int);
    }
    let ghost t = s@.skip(a as int);
    let mut b: usize = n;
    while b > a && is_ws_exec(s.get_char(b - 1))
        invariant
            a <= b <= n,
            n == s@.len(),
            t == s@.skip(a as int),
            forall|j: int| b <= j < n ==> is_ws(s@[j]),
        decreases b - a,
    {
        b = b - 1;
    }
    proof {
        assert forall|j: int| t.len() - (n - b) <= j < t.len() implies is_ws(t[j]) by {
            assert(t[j] == s@[a + j]);
        }
        if b > a {
            assert(t[t.len() - (n - b) - 1] == s@[b - 1]);
        }
        lemma_trail_ws(t, (n - b) as int);
        assert(s@.subrange(a as int, b as int) =~= trim(s@));
    }
    String::from_str(s.substring_char(a, b))
}

/// Parses one argument `name: RustType | EdslType`.
pub fn parse_argument(arg: &str) -> (r: ParsedKernelArgument)
    requires
        argument_ok(arg@),
    ensures
        (r.name@, r.rust_type@, r.edsl_type@) == argument_spec(arg@),
{
    let t = trim_str(arg);
    let ts = t.as_str();
    let n = ts.unicode_len();
    let colon = find_from(ts, ':', 0);
    let bar = find_from(ts, '|', 0);
    proof {
        lemma_find_bounds(ts@, ':');
        lemma_find_bounds(ts@, '|');
        assert(ts@.skip(0) =~= ts@);
    }
    match (colon, bar) {
        (Some(c), Some(b)) => {
            proof {
                lemma_find_unique(ts@, ':', c as int);
                lemma_find_unique(ts@, '|', b as int);
                assert(ts@.subrange(0, c as int) =~= ts@.take(c as int));
                assert(ts@.subrange(b + 1, n as int) =~= ts@.skip(b + 1));
            }
            let name = trim_str(ts.substring_char(0, c));
            let rust_type = trim_str(ts.substring_char(c + 1, b));
            let edsl_type = trim_str(ts.substring_char(b + 1, n));
            ParsedKernelArgument { name, rust_type, edsl_type }
        },
        _ => {
            proof {
                assert(false);
            }
            ParsedKernelArgument { name: String::new(), rust_type: String::new(), edsl_type: String::new() }
        },
    }
}

pub open spec fn string_views(v: Seq<String>) -> Seq<Seq<char>> {
    v.map_values(|x: String| x@)
}

/// The parts of `s` between commas.
pub fn split_commas_str(s: &str) -> (r: Vec<String>)
    ensures
        string_views(r@) == split_commas(s@),
{
    let n = s.unicode_len();
    let mut parts: Vec<String> = Vec::new();
    let mut start: usize = 0;
    assert(s@.skip(0) =~= s@);
    loop
        invariant
            start <= n,
            n == s@.len(),
            string_views(parts@) + split_commas(s@.skip(start as int)) == split_commas(s@),
        decreases n - start,
    {
        let ghost rest = s@.skip(start as int);
        match find_from(s, ',', start) {
            Some(i) => {
                proof {
                    assert forall|j: int| 0 <= j < i - start implies rest[j] != ',' by {
                        assert(rest[j] == s@[start + j]);
                    }
                    lemma_find_unique(rest, ',', i - start);
                    assert(rest.take(i - start) =~= s@.subrange(start as int, i as int));
                    assert(rest.skip(i - start + 1) =~= s@.skip(i + 1));
                }
                let piece = String::from_str(s.substring_char(start, i));
                let ghost before = parts@;
                parts.push(piece);
                proof {
                    assert(string_views(parts@) =~= string_views(before).push(
                        s@.subrange(start as int, i as int),
                    ));
                }
                start = i + 1;
            },
            None => {
                proof {
                    assert forall|j: int| 0 <= j < rest.len() implies rest[j] != ',' by {
                        assert(rest[j] == s@[start + j]);
                    }
                    lemma_find_bounds(rest, ',');
                    assert(rest =~= s@.subrange(start as int, n as int));
                }
                let piece = String::from_str(s.substring_char(start, n));
                let ghost before = parts@;
                parts.push(piece);
                proof {
                    assert(string_views(parts@) =~= string_views(before).push(rest));
                }
                return parts;
            },
        }
    }
}

/// `c` occurs in `s` exactly when `find` finds it.
proof fn lemma_find_none(s: Seq<char>, c: char)
    requires
        forall|j: int| 0 <= j < s.len() ==> s[j] != c,
    ensures
        find(s, c) is None,
{
    lemma_find_bounds(s, c);
}

/// Whether an argument has a `:` and, after it, a `|`.
pub fn argument_is_ok(arg: &str) -> (r: bool)
    ensures
        r == argument_ok(arg@),
{
    let t = trim_str(arg);
    let ts = t.as_str();
    let colon = find_from(ts, ':', 0);
    let bar = find_from(ts, '|', 0);
    match (colon, bar) {
        (Some(c), Some(b)) => {
            proof {
                lemma_find_unique(ts@, ':', c as int);
                lemma_find_unique(ts@, '|', b as int);
            }
            c < b
        },
        (None, _) => {
            proof {
                lemma_find_none(ts@, ':');
            }
            false
        },
        (_, None) => {
            proof {
                lemma_find_none(ts@, '|');
            }
            false
        },
    }
}

/// Whether the parser accepts a kernel header (see `kernel_ok`).
pub fn kernel_is_ok(tokens: &Vec<KernelToken>, return_type: &str) -> (r: bool)
    ensures
        r == kernel_ok(tokens@, return_type@),
{
    if tokens.len() < 6 {
        return false;
    }
    let name_ok = match &tokens[1] {
        KernelToken::Ident(_) => true,
        _ => false,
    };
    let last_ok = match &tokens[tokens.len() - 1] {
        KernelToken::Group(_, _) => true,
        _ => false,
    };
    let args_ok = match &tokens[2] {
        KernelToken::Group(d, text) => {
            let paren = match d {
                Delimiter::Parenthesis => true,
                _ => false,
            };
            if !paren {
                false
            } else {
                let parts = split_commas_str(text.as_str());
                let mut all = true;
                let mut k: usize = 0;
                while k < parts.len()
                    invariant
                        k <= parts@.len(),
                        string_views(parts@) == split_commas(text@),
                        all == forall|j: int| 0 <= j < k ==> argument_ok(#[trigger] split_commas(text@)[j]),
                    decreases parts@.len() - k,
                {
                    let ok = argument_is_ok(parts[k].as_str());
                    proof {
                        assert(string_views(parts@)[k as int] == parts@[k as int]@);
                        if !ok {
                            assert(!argument_ok(split_commas(text@)[k as int]));
                        }
                    }
                    all = all && ok;
                    k = k + 1;
                }
                proof {
                    assert(split_commas(text@).len() == parts@.len());
                }
                all
            }
        },
        _ => false,
    };
    let bar = find_from(return_type, '|', 0);
    let bar_ok = match bar {
        Some(b) => {
            proof {
                lemma_find_unique(return_type@, '|', b as int);
            }
            true
        },
        None => {
            proof {
                lemma_find_none(return_type@, '|');
            }
            false
        },
    };
    name_ok && args_ok && last_ok && bar_ok
}

/// The header the parser accepts: a name, a parenthesised argument list whose arguments all
/// have a `:` then a `|`, at least six tokens in all ending with a group, and a return type
/// with a `|`.
pub open spec fn kernel_ok(tokens: Seq<KernelToken>, return_type: Seq<char>) -> bool {
    &&& tokens.len() >= 6
    &&& tokens[1] is Ident
    &&& tokens[2] matches KernelToken::Group(d, text) && d == Delimiter::Parenthesis && forall|k: int|
        0 <= k < split_commas(text@).len() ==> argument_ok(#[trigger] split_commas(text@)[k])
    &&& tokens.last() is Group
    &&& find(return_type, '|') is Some
}

/// Parses a kernel header.  `return_type` is the text of the tokens between the arrow and the
/// body (from the sixth token to the last but one).
pub fn parse_raw_kernel(tokens: &Vec<KernelToken>, return_type: &str) -> (r: ParsedKernel)
    requires
        kernel_ok(tokens@, return_type@),
    ensures
        r.function_name@ == tokens@[1]->Ident_0@,
        r.arguments@.len() == split_commas(tokens@[2]->Group_1@).len(),
        forall|k: int|
            0 <= k < r.arguments@.len() ==> ((#[trigger] r.arguments@[k]).name@, r.arguments@[k].rust_type@,
            r.arguments@[k].edsl_type@) == argument_spec(split_commas(tokens@[2]->Group_1@)[k]),
        r.file_path@ == tokens@.last()->Group_1@,
        r.rust_return_type@ == trim(return_type@.take(find(return_type@, '|')->0)),
        r.edsl_return_type@ == trim(return_type@.skip(find(return_type@, '|')->0 + 1)),
{
    let function_name = match &tokens[1] {
        KernelToken::Ident(ident) => ident.clone(),
        _ => String::new(),
    };
    let arguments_text = match &tokens[2] {
        KernelToken::Group(_, text) => text.as_str(),
        _ => "",
    };
    let pieces = split_commas_str(arguments_text);
    let ghost parts = split_commas(arguments_text@);
    let mut arguments: Vec<ParsedKernelArgument> = Vec::new();
    let mut k: usize = 0;
    while k < pieces.len()
        invariant
            k <= pieces@.len(),
            string_views(pieces@) == parts,
            parts == split_commas(tokens@[2]->Group_1@),
            forall|j: int| 0 <= j < parts.len() ==> argument_ok(#[trigger] parts[j]),
            arguments@.len() == k,
            forall|j: int|
                0 <= j < k ==> ((#[trigger] arguments@[j]).name@, arguments@[j].rust_type@,
                arguments@[j].edsl_type@) == argument_spec(parts[j]),
        decreases pieces@.len() - k,
    {
        assert(pieces@[k as int]@ == parts[k as int]);
        arguments.push(parse_argument(pieces[k].as_str()));
        k = k + 1;
    }
    let n = return_type.unicode_len();
    let bar = find_from(return_type, '|', 0);
    proof {
        lemma_find_bounds(return_type@, '|');
        assert(return_type@.skip(0) =~= return_type@);
    }
    let (rust_return_type, edsl_return_type) = match bar {
        Some(b) => {
            proof {
                lemma_find_unique(return_type@, '|', b as int);
                assert(return_type@.subrange(0, b as int) =~= return_type@.take(b as int));
                assert(return_type@.subrange(b + 1, n as int) =~= return_type@.skip(b + 1));
            }
            (trim_str(return_type.substring_char(0, b)), trim_str(return_type.substring_char(b + 1, n)))
        },
        None => (String::new(), String::new()),
    };
    let file_path = match &tokens[tokens.len() - 1] {
        KernelToken::Group(_, text) => text.clone(),
        _ => String::new(),
    };
    ParsedKernel { function_name, arguments, file_path, rust_return_type, edsl_return_type }
}

} // verus!
