use openvm_native::kernel::{argument_is_ok, kernel_is_ok, parse_raw_kernel, Delimiter, KernelToken};
use proc_macro2::{TokenStream, TokenTree};

/// The tokens of a kernel source, each with the text it prints as, and the text of the return
/// type (the tokens between the arrow and the body).
fn tokens_of(source: &str) -> (Vec<KernelToken>, String) {
    let stream: TokenStream = source.parse().unwrap();
    let trees: Vec<TokenTree> = stream.into_iter().collect();
    let tokens = trees
        .iter()
        .map(|t| match t {
            TokenTree::Ident(i) => KernelToken::Ident(i.to_string()),
            TokenTree::Group(g) => {
                let d = match g.delimiter() {
                    proc_macro2::Delimiter::Parenthesis => Delimiter::Parenthesis,
                    proc_macro2::Delimiter::Brace => Delimiter::Brace,
                    proc_macro2::Delimiter::Bracket => Delimiter::Bracket,
                    proc_macro2::Delimiter::None => Delimiter::Invisible,
                };
                KernelToken::Group(d, g.stream().to_string())
            }
            other => KernelToken::Other(other.to_string()),
        })
        .collect();
    let ret = TokenStream::from_iter(trees[5..trees.len() - 1].to_vec()).to_string();
    (tokens, ret)
}

#[test]
fn parses_name_arguments_return_type_and_path() {
    let (tokens, ret) =
        tokens_of("fn add(a: u32 | Var<C::N>, b: u64 | Felt<C::F>) -> u32 | Var<C::N> { \"src/add.rs\" }");
    let k = parse_raw_kernel(&tokens, &ret);
    assert_eq!(k.function_name, "add");
    assert_eq!(k.arguments.len(), 2);
    assert_eq!(k.arguments[0].name, "a");
    assert_eq!(k.arguments[0].rust_type, "u32");
    assert_eq!(k.arguments[0].edsl_type, "Var < C :: N >");
    assert_eq!(k.arguments[1].name, "b");
    assert_eq!(k.arguments[1].rust_type, "u64");
    assert_eq!(k.arguments[1].edsl_type, "Felt < C :: F >");
    assert_eq!(k.rust_return_type, "u32");
    assert_eq!(k.edsl_return_type, "Var < C :: N >");
    assert_eq!(k.file_path, "\"src/add.rs\"");
}

#[test]
fn single_argument_with_surrounding_whitespace() {
    let tokens = vec![
        KernelToken::Ident(String::from("fn")),
        KernelToken::Ident(String::from("f")),
        KernelToken::Group(Delimiter::Parenthesis, String::from("  x :  [u8; 4]  |  Array<Var>  ")),
        KernelToken::Other(String::from("-")),
        KernelToken::Other(String::from(">")),
        KernelToken::Ident(String::from("bool")),
        KernelToken::Group(Delimiter::Brace, String::from("\"k.rs\"")),
    ];
    let k = parse_raw_kernel(&tokens, " bool |  Var ");
    assert_eq!(k.function_name, "f");
    assert_eq!(k.arguments.len(), 1);
    assert_eq!(k.arguments[0].name, "x");
    assert_eq!(k.arguments[0].rust_type, "[u8; 4]");
    assert_eq!(k.arguments[0].edsl_type, "Array<Var>");
    assert_eq!(k.rust_return_type, "bool");
    assert_eq!(k.edsl_return_type, "Var");
    assert_eq!(k.file_path, "\"k.rs\"");
}

#[test]
fn kernel_headers_are_checked_before_parsing() {
    let (tokens, ret) =
        tokens_of("fn add(a: u32 | Var<C::N>, b: u64 | Felt<C::F>) -> u32 | Var<C::N> { \"src/add.rs\" }");
    assert!(kernel_is_ok(&tokens, &ret));
    // an argument without its eDSL type
    let (tokens, ret) = tokens_of("fn add(a: u32, b: u64 | Felt<C::F>) -> u32 | Var<C::N> { \"src/add.rs\" }");
    assert!(!kernel_is_ok(&tokens, &ret));
    // a return type without its eDSL type
    let (tokens, ret) = tokens_of("fn add(a: u32 | Var<C::N>) -> u32 { \"src/add.rs\" }");
    assert!(!kernel_is_ok(&tokens, &ret));
    // arguments in brackets
    let (tokens, ret) = tokens_of("fn add[a: u32 | Var<C::N>] -> u32 | Var<C::N> { \"src/add.rs\" }");
    assert!(!kernel_is_ok(&tokens, &ret));
    assert!(argument_is_ok(" x : u8 | Felt "));
    assert!(!argument_is_ok("x | u8 : Felt"));
}
