//! The textual form of assembly instructions.
use crate::assembly::AsmInstruction;
use crate::field::{modp, BabyBear};
use vstd::prelude::*;
use vstd::string::StringExecFns;

verus! {

/// The decimal digit `d`.
pub open spec fn digit(d: int) -> char {
    (48 + d) as char
}

/// The decimal form of `n`, without leading zeros.
pub open spec fn decimal(n: nat) -> Seq<char>
    decreases n,
{
    if n < 10 {
        seq![digit(n as int)]
    } else {
        decimal(n / 10).push(digit((n % 10) as int))
    }
}

/// The decimal form of a signed integer.
pub open spec fn signed_decimal(x: int) -> Seq<char> {
    if x < 0 {
        seq!['-'] + decimal((-x) as nat)
    } else {
        decimal(x as nat)
    }
}

/// The text of the nonzero coordinate `c` at position `i`: `c` for the constant coordinate,
/// then `X` or `X^i`, preceded by `c ` unless `c` is one.
pub open spec fn ext_term(c: nat, i: nat) -> Seq<char> {
    if i == 0 {
        decimal(c)
    } else {
        let x = if i == 1 {
            seq!['X']
        } else {
            seq!['X', '^'] + decimal(i)
        };
        if c == 1 {
            x
        } else {
            decimal(c) + seq![' '] + x
        }
    }
}

/// The terms of the nonzero coordinates among the first `k`, joined by ` + `.
pub open spec fn ext_terms(c: Seq<nat>, k: nat) -> Seq<char>
    decreases k,
{
    if k == 0 {
        Seq::empty()
    } else {
        let prev = ext_terms(c, (k - 1) as nat);
        if c[k - 1] == 0 {
            prev
        } else if prev.len() == 0 {
            ext_term(c[k - 1], (k - 1) as nat)
        } else {
            prev + seq![' ', '+', ' '] + ext_term(c[k - 1], (k - 1) as nat)
        }
    }
}

/// The text of an extension element with the given canonical coordinates: `0`, or the terms
/// of its nonzero coordinates joined by ` + `.
pub open spec fn ext_text(c: Seq<nat>) -> Seq<char> {
    if c[0] == 0 && c[1] == 0 && c[2] == 0 && c[3] == 0 {
        seq!['0']
    } else {
        ext_terms(c, 4)
    }
}

/// The canonical coordinates of an extension constant.
pub open spec fn ext_coords(c: [BabyBear; 4]) -> Seq<nat> {
    seq![
        modp(c[0].v as int) as nat,
        modp(c[1].v as int) as nat,
        modp(c[2].v as int) as nat,
        modp(c[3].v as int) as nat,
    ]
}

/// Appends the term of the nonzero coordinate `c` at position `i`.
fn append_term(s: &mut String, c: u64, i: u64)
    requires
        i < 4,
    ensures
        final(s)@ == old(s)@ + ext_term(c as nat, i as nat),
{
    if i == 0 {
        append_decimal(s, c);
    } else {
        if c != 1 {
            append_decimal(s, c);
            proof {
                reveal_strlit(" ");
            }
            s.append(" ");
        }
        proof {
            reveal_strlit("X");
            reveal_strlit("^");
        }
        s.append("X");
        if i >= 2 {
            s.append("^");
            append_decimal(s, i);
        }
    }
    assert(final(s)@ =~= old(s)@ + ext_term(c as nat, i as nat));
}

/// Appends the text of an extension constant.
fn append_ext(s: &mut String, c: [BabyBear; 4])
    ensures
        final(s)@ == old(s)@ + ext_text(ext_coords(c)),
{
    let v: [u64; 4] = [
        (c[0].v % crate::field::BABY_BEAR_P) as u64,
        (c[1].v % crate::field::BABY_BEAR_P) as u64,
        (c[2].v % crate::field::BABY_BEAR_P) as u64,
        (c[3].v % crate::field::BABY_BEAR_P) as u64,
    ];
    let ghost cs = ext_coords(c);
    assert(v[0] == cs[0] && v[1] == cs[1] && v[2] == cs[2] && v[3] == cs[3]);
    if v[0] == 0 && v[1] == 0 && v[2] == 0 && v[3] == 0 {
        proof {
            reveal_strlit("0");
        }
        s.append("0");
        return;
    }
    let ghost start = s@;
    let mut any = false;
    let mut i: usize = 0;
    while i < 4
        invariant
            i <= 4,
            cs == ext_coords(c),
            v[0] == cs[0] && v[1] == cs[1] && v[2] == cs[2] && v[3] == cs[3],
            s@ == start + ext_terms(cs, i as nat),
            any == (ext_terms(cs, i as nat).len() > 0),
        decreases 4 - i,
    {
        if v[i] != 0 {
            if any {
                proof {
                    reveal_strlit(" + ");
                }
                s.append(" + ");
            }
            let ghost mid = s@;
            append_term(s, v[i], i as u64);
            proof {
                let t = ext_term(cs[i as int], i as nat);
                assert(t.len() > 0);
                assert(ext_terms(cs, (i + 1) as nat) == if any {
                    ext_terms(cs, i as nat) + seq![' ', '+', ' '] + t
                } else {
                    t
                });
                assert(s@ =~= start + ext_terms(cs, (i + 1) as nat));
            }
            any = true;
        }
        i = i + 1;
    }
}

fn digit_str(d: u64) -> (r: &'static str)
    requires
        d < 10,
    ensures
        r@ == seq![digit(d as int)],
{
    match d {
        0 => {
            proof {
                reveal_strlit("0");
            }
            "0"
        },
        1 => {
            proof {
                reveal_strlit("1");
            }
            "1"
        },
        2 => {
            proof {
                reveal_strlit("2");
            }
            "2"
        },
        3 => {
            proof {
                reveal_strlit("3");
            }
            "3"
        },
        4 => {
            proof {
                reveal_strlit("4");
            }
            "4"
        },
        5 => {
            proof {
                reveal_strlit("5");
            }
            "5"
        },
        6 => {
            proof {
                reveal_strlit("6");
            }
            "6"
        },
        7 => {
            proof {
                reveal_strlit("7");
            }
            "7"
        },
        8 => {
            proof {
                reveal_strlit("8");
            }
            "8"
        },
        _ => {
            proof {
                reveal_strlit("9");
            }
            "9"
        },
    }
}

/// Appends the decimal form of `n`.
pub fn append_decimal(s: &mut String, n: u64)
    ensures
        final(s)@ == old(s)@ + decimal(n as nat),
    decreases n,
{
    if n >= 10 {
        append_decimal(s, n / 10);
    }
    s.append(digit_str(n % 10));
    assert(final(s)@ =~= old(s)@ + decimal(n as nat));
}

/// Appends the decimal form of a signed integer.
pub fn append_signed(s: &mut String, x: i32)
    ensures
        final(s)@ == old(s)@ + signed_decimal(x as int),
{
    if x < 0 {
        proof {
            reveal_strlit("-");
        }
        s.append("-");
        let m: i64 = -(x as i64);
        append_decimal(s, m as u64);
        assert(final(s)@ =~= old(s)@ + signed_decimal(x as int));
    } else {
        append_decimal(s, x as u64);
    }
}

/// A part of the text of an instruction.
pub enum Piece {
    Lit(&'static str),
    /// A signed frame offset.
    Int(i32),
    /// A field element, by its canonical value.
    Fe(BabyBear),
    Nat(u32),
    Ext([BabyBear; 4]),
    /// A block label: its name when it has one, `.L` and its number otherwise.
    Label(BabyBear),
}

/// The name of a label, when the table gives it one: the first entry with that label.
pub open spec fn label_lookup(labels: Seq<(BabyBear, Seq<char>)>, l: BabyBear) -> Option<Seq<char>>
    decreases labels.len(),
{
    if labels.len() == 0 {
        None
    } else if labels[0].0 == l {
        Some(labels[0].1)
    } else {
        label_lookup(labels.drop_first(), l)
    }
}

pub open spec fn label_text(labels: Seq<(BabyBear, Seq<char>)>, l: BabyBear) -> Seq<char> {
    match label_lookup(labels, l) {
        Some(name) => name,
        None => ".L"@ + decimal(modp(l.v as int) as nat),
    }
}

pub open spec fn piece_text(p: Piece, labels: Seq<(BabyBear, Seq<char>)>) -> Seq<char> {
    match p {
        Piece::Lit(s) => s@,
        Piece::Int(x) => signed_decimal(x as int),
        Piece::Fe(f) => decimal(modp(f.v as int) as nat),
        Piece::Nat(n) => decimal(n as nat),
        Piece::Ext(c) => ext_text(ext_coords(c)),
        Piece::Label(l) => label_text(labels, l),
    }
}

pub open spec fn render(ps: Seq<Piece>, labels: Seq<(BabyBear, Seq<char>)>) -> Seq<char>
    decreases ps.len(),
{
    if ps.len() == 0 {
        Seq::empty()
    } else {
        render(ps.drop_last(), labels) + piece_text(ps.last(), labels)
    }
}

/// The label table as names.
pub open spec fn labels_view(labels: Seq<(BabyBear, String)>) -> Seq<(BabyBear, Seq<char>)> {
    labels.map_values(|e: (BabyBear, String)| (e.0, e.1@))
}

/// The parts of the text of an instruction.
pub open spec fn pieces_spec(i: AsmInstruction) -> Seq<Piece> {
    match i {
        AsmInstruction::LoadFI(a, b, c, d, e) => seq![Piece::Lit("lwi   ("), Piece::Int(a), Piece::Lit(")fp, ("), Piece::Int(b), Piece::Lit(")fp, "), Piece::Fe(c), Piece::Lit(", "), Piece::Fe(d), Piece::Lit(", "), Piece::Fe(e)],
        AsmInstruction::StoreFI(a, b, c, d, e) => seq![Piece::Lit("swi   ("), Piece::Int(a), Piece::Lit(")fp, ("), Piece::Int(b), Piece::Lit(")fp, "), Piece::Fe(c), Piece::Lit(", "), Piece::Fe(d), Piece::Lit(", "), Piece::Fe(e)],
        AsmInstruction::ImmF(a, b) => seq![Piece::Lit("imm   ("), Piece::Int(a), Piece::Lit(")fp, ("), Piece::Fe(b), Piece::Lit(")")],
        AsmInstruction::CopyF(a, b) => seq![Piece::Lit("copy  ("), Piece::Int(a), Piece::Lit(")fp, ("), Piece::Int(b), Piece::Lit(")")],
        AsmInstruction::AddF(a, b, c) => seq![Piece::Lit("add   ("), Piece::Int(a), Piece::Lit(")fp, ("), Piece::Int(b), Piece::Lit(")fp, ("), Piece::Int(c), Piece::Lit(")fp")],
        AsmInstruction::SubF(a, b, c) => seq![Piece::Lit("sub   ("), Piece::Int(a), Piece::Lit(")fp, ("), Piece::Int(b), Piece::Lit(")fp, ("), Piece::Int(c), Piece::Lit(")fp")],
        AsmInstruction::MulF(a, b, c) => seq![Piece::Lit("mul   ("), Piece::Int(a), Piece::Lit(")fp, ("), Piece::Int(b), Piece::Lit(")fp, ("), Piece::Int(c), Piece::Lit(")fp")],
        AsmInstruction::DivF(a, b, c) => seq![Piece::Lit("div   ("), Piece::Int(a), Piece::Lit(")fp, ("), Piece::Int(b), Piece::Lit(")fp, ("), Piece::Int(c), Piece::Lit(")fp")],
        AsmInstruction::AddE(a, b, c) => seq![Piece::Lit("eadd ("), Piece::Int(a), Piece::Lit(")fp, ("), Piece::Int(b), Piece::Lit(")fp, ("), Piece::Int(c), Piece::Lit(")fp")],
        AsmInstruction::SubE(a, b, c) => seq![Piece::Lit("esub  ("), Piece::Int(a), Piece::Lit(")fp, ("), Piece::Int(b), Piece::Lit(")fp, ("), Piece::Int(c), Piece::Lit(")fp")],
        AsmInstruction::MulE(a, b, c) => seq![Piece::Lit("emul  ("), Piece::Int(a), Piece::Lit(")fp, ("), Piece::Int(b), Piece::Lit(")fp, ("), Piece::Int(c), Piece::Lit(")fp")],
        AsmInstruction::DivE(a, b, c) => seq![Piece::Lit("ediv  ("), Piece::Int(a), Piece::Lit(")fp, ("), Piece::Int(b), Piece::Lit(")fp, ("), Piece::Int(c), Piece::Lit(")fp")],
        AsmInstruction::AddFI(a, b, c) => seq![Piece::Lit("addi  ("), Piece::Int(a), Piece::Lit(")fp, ("), Piece::Int(b), Piece::Lit(")fp, "), Piece::Fe(c)],
        AsmInstruction::SubFI(a, b, c) => seq![Piece::Lit("subi  ("), Piece::Int(a), Piece::Lit(")fp, ("), Piece::Int(b), Piece::Lit(")fp, "), Piece::Fe(c)],
        AsmInstruction::MulFI(a, b, c) => seq![Piece::Lit("muli  ("), Piece::Int(a), Piece::Lit(")fp, ("), Piece::Int(b), Piece::Lit(")fp, "), Piece::Fe(c)],
        AsmInstruction::DivFI(a, b, c) => seq![Piece::Lit("divi  ("), Piece::Int(a), Piece::Lit(")fp, ("), Piece::Int(b), Piece::Lit(")fp, "), Piece::Fe(c)],
        AsmInstruction::SubFIN(a, b, c) => seq![Piece::Lit("subin ("), Piece::Int(a), Piece::Lit(")fp, "), Piece::Fe(b), Piece::Lit(", ("), Piece::Int(c), Piece::Lit(")fp")],
        AsmInstruction::DivFIN(a, b, c) => seq![Piece::Lit("divi  ("), Piece::Int(a), Piece::Lit(")fp, "), Piece::Fe(b), Piece::Lit(", ("), Piece::Int(c), Piece::Lit(")fp")],
        AsmInstruction::Jump(a, b) => seq![Piece::Lit("j     ("), Piece::Int(a), Piece::Lit(")fp, "), Piece::Label(b)],
        AsmInstruction::Bne(a, b, c) => seq![Piece::Lit("bne   "), Piece::Label(a), Piece::Lit(", ("), Piece::Int(b), Piece::Lit(")fp, ("), Piece::Int(c), Piece::Lit(")fp")],
        AsmInstruction::Beq(a, b, c) => seq![Piece::Lit("beq  "), Piece::Label(a), Piece::Lit(", ("), Piece::Int(b), Piece::Lit(")fp, ("), Piece::Int(c), Piece::Lit(")fp")],
        AsmInstruction::BneE(a, b, c) => seq![Piece::Lit("ebne  "), Piece::Label(a), Piece::Lit(", ("), Piece::Int(b), Piece::Lit(")fp, ("), Piece::Int(c), Piece::Lit(")fp")],
        AsmInstruction::BeqE(a, b, c) => seq![Piece::Lit("ebeq  "), Piece::Label(a), Piece::Lit(", ("), Piece::Int(b), Piece::Lit(")fp, ("), Piece::Int(c), Piece::Lit(")fp")],
        AsmInstruction::BneI(a, b, c) => seq![Piece::Lit("bnei  "), Piece::Label(a), Piece::Lit(", ("), Piece::Int(b), Piece::Lit(")fp, "), Piece::Fe(c)],
        AsmInstruction::BeqI(a, b, c) => seq![Piece::Lit("beqi "), Piece::Label(a), Piece::Lit(", ("), Piece::Int(b), Piece::Lit(")fp, "), Piece::Fe(c)],
        AsmInstruction::BneEI(a, b, c) => seq![Piece::Lit("ebnei "), Piece::Label(a), Piece::Lit(", ("), Piece::Int(b), Piece::Lit(")fp, "), Piece::Ext(c)],
        AsmInstruction::BeqEI(a, b, c) => seq![Piece::Lit("ebeqi "), Piece::Label(a), Piece::Lit(", ("), Piece::Int(b), Piece::Lit(")fp, "), Piece::Ext(c)],
        AsmInstruction::Trap => seq![Piece::Lit("trap")],
        AsmInstruction::Halt => seq![Piece::Lit("halt")],
        AsmInstruction::HintBits(a, b) => seq![Piece::Lit("hint_bits ("), Piece::Int(a), Piece::Lit(")fp, "), Piece::Nat(b)],
        AsmInstruction::Poseidon2Permute(a, b) => seq![Piece::Lit("poseidon2_permute ("), Piece::Int(a), Piece::Lit(")fp, ("), Piece::Int(b), Piece::Lit(")fp")],
        AsmInstruction::Poseidon2Compress(a, b, c) => seq![Piece::Lit("poseidon2_compress ("), Piece::Int(a), Piece::Lit(")fp, ("), Piece::Int(b), Piece::Lit(")fp, ("), Piece::Int(c), Piece::Lit(")fp")],
        AsmInstruction::PrintF(a) => seq![Piece::Lit("print_f ("), Piece::Int(a), Piece::Lit(")fp")],
        AsmInstruction::PrintV(a) => seq![Piece::Lit("print_v ("), Piece::Int(a), Piece::Lit(")fp")],
        AsmInstruction::PrintE(a) => seq![Piece::Lit("print_e ("), Piece::Int(a), Piece::Lit(")fp")],
        AsmInstruction::HintInputVec => seq![Piece::Lit("hint_vec")],
        AsmInstruction::StoreHintWordI(a, b) => seq![Piece::Lit("shintw ("), Piece::Int(a), Piece::Lit(")fp "), Piece::Fe(b)],
        AsmInstruction::Publish(a, b) => seq![Piece::Lit("commit ("), Piece::Int(a), Piece::Lit(")fp ("), Piece::Int(b), Piece::Lit(")fp")],
        AsmInstruction::CycleTrackerStart => seq![Piece::Lit("cycle_tracker_start")],
        AsmInstruction::CycleTrackerEnd => seq![Piece::Lit("cycle_tracker_end")],
        AsmInstruction::FriReducedOpening(a, b, c, d, e, f, g) => seq![Piece::Lit("fri_mat_opening ("), Piece::Int(a), Piece::Lit(")fp, ("), Piece::Int(b), Piece::Lit(")fp, ("), Piece::Int(c), Piece::Lit(")fp, ("), Piece::Int(d), Piece::Lit(")fp, ("), Piece::Int(e), Piece::Lit(")fp, ("), Piece::Int(f), Piece::Lit(")fp, ("), Piece::Int(g), Piece::Lit(")fp")],
        _ => Seq::empty(),
    }
}

/// The mnemonic each instruction is printed with, with the spacing and the opening bracket that
/// follow it: `add` for a field addition, `mul` for a multiplication, `bne` for a branch on
/// inequality, and so on.
pub open spec fn mnemonic(i: AsmInstruction) -> Seq<char> {
    match i {
        AsmInstruction::LoadFI(..) => "lwi   ("@,
        AsmInstruction::StoreFI(..) => "swi   ("@,
        AsmInstruction::ImmF(..) => "imm   ("@,
        AsmInstruction::CopyF(..) => "copy  ("@,
        AsmInstruction::AddF(..) => "add   ("@,
        AsmInstruction::SubF(..) => "sub   ("@,
        AsmInstruction::MulF(..) => "mul   ("@,
        AsmInstruction::DivF(..) => "div   ("@,
        AsmInstruction::AddE(..) => "eadd ("@,
        AsmInstruction::SubE(..) => "esub  ("@,
        AsmInstruction::MulE(..) => "emul  ("@,
        AsmInstruction::DivE(..) => "ediv  ("@,
        AsmInstruction::AddFI(..) => "addi  ("@,
        AsmInstruction::SubFI(..) => "subi  ("@,
        AsmInstruction::MulFI(..) => "muli  ("@,
        AsmInstruction::DivFI(..) => "divi  ("@,
        AsmInstruction::SubFIN(..) => "subin ("@,
        AsmInstruction::DivFIN(..) => "divi  ("@,
        AsmInstruction::Jump(..) => "j     ("@,
        AsmInstruction::Bne(..) => "bne   "@,
        AsmInstruction::Beq(..) => "beq  "@,
        AsmInstruction::BneE(..) => "ebne  "@,
        AsmInstruction::BeqE(..) => "ebeq  "@,
        AsmInstruction::BneI(..) => "bnei  "@,
        AsmInstruction::BeqI(..) => "beqi "@,
        AsmInstruction::BneEI(..) => "ebnei "@,
        AsmInstruction::BeqEI(..) => "ebeqi "@,
        AsmInstruction::Trap => "trap"@,
        AsmInstruction::Halt => "halt"@,
        AsmInstruction::HintBits(..) => "hint_bits ("@,
        AsmInstruction::Poseidon2Permute(..) => "poseidon2_permute ("@,
        AsmInstruction::Poseidon2Compress(..) => "poseidon2_compress ("@,
        AsmInstruction::PrintF(..) => "print_f ("@,
        AsmInstruction::PrintV(..) => "print_v ("@,
        AsmInstruction::PrintE(..) => "print_e ("@,
        AsmInstruction::HintInputVec => "hint_vec"@,
        AsmInstruction::StoreHintWordI(..) => "shintw ("@,
        AsmInstruction::Publish(..) => "commit ("@,
        AsmInstruction::CycleTrackerStart => "cycle_tracker_start"@,
        AsmInstruction::CycleTrackerEnd => "cycle_tracker_end"@,
        AsmInstruction::FriReducedOpening(..) => "fri_mat_opening ("@,
        _ => Seq::empty(),
    }
}

/// The text of the first pieces is a prefix of the text of all of them.
proof fn lemma_render_prefix(ps: Seq<Piece>, labels: Seq<(BabyBear, Seq<char>)>, k: int)
    requires
        0 <= k <= ps.len(),
    ensures
        render(ps, labels).take(render(ps.take(k), labels).len() as int) == render(ps.take(k), labels),
        render(ps.take(k), labels).len() <= render(ps, labels).len(),
    decreases ps.len(),
{
    if k == ps.len() {
        assert(ps.take(k) =~= ps);
    } else {
        lemma_render_prefix(ps.drop_last(), labels, k);
        assert(ps.drop_last().take(k) =~= ps.take(k));
        let a = render(ps.drop_last(), labels);
        let b = render(ps.take(k), labels);
        assert((a + piece_text(ps.last(), labels)).take(b.len() as int) =~= a.take(b.len() as int));
    }
}

/// Every printable instruction is printed starting with its mnemonic, whatever its operands and
/// labels.
pub proof fn lemma_text_starts_with_mnemonic(i: AsmInstruction, labels: Seq<(BabyBear, Seq<char>)>)
    requires
        printable(i),
    ensures
        render(pieces_spec(i), labels).take(mnemonic(i).len() as int) == mnemonic(i),
{
    let ps = pieces_spec(i);
    assert(ps.len() >= 1);
    lemma_render_prefix(ps, labels, 1);
    let t = ps.take(1);
    assert(t.drop_last() =~= Seq::<Piece>::empty());
    assert(t.last() == ps[0]);
    assert(render(t.drop_last(), labels) == Seq::<char>::empty());
    assert(render(t, labels) =~= piece_text(ps[0], labels));
    assert(ps[0] is Lit);
    assert(piece_text(ps[0], labels) == mnemonic(i));
}

/// The instructions that have a textual form: all but the unresolved `Break` and the
/// instructions the printer does not cover.
pub open spec fn printable(i: AsmInstruction) -> bool {
    !(i is Break || i is LoadEI || i is StoreEI || i is HintFelt || i is HintLoad
        || i is StoreHintExtI || i is VerifyBatchFelt || i is VerifyBatchExt || i is RangeCheck)
}

fn pieces(i: AsmInstruction) -> (r: Vec<Piece>)
    ensures
        r@ == pieces_spec(i),
{
    let r = match i {
        AsmInstruction::LoadFI(a, b, c, d, e) => vec![Piece::Lit("lwi   ("), Piece::Int(a), Piece::Lit(")fp, ("), Piece::Int(b), Piece::Lit(")fp, "), Piece::Fe(c), Piece::Lit(", "), Piece::Fe(d), Piece::Lit(", "), Piece::Fe(e)],
        AsmInstruction::StoreFI(a, b, c, d, e) => vec![Piece::Lit("swi   ("), Piece::Int(a), Piece::Lit(")fp, ("), Piece::Int(b), Piece::Lit(")fp, "), Piece::Fe(c), Piece::Lit(", "), Piece::Fe(d), Piece::Lit(", "), Piece::Fe(e)],
        AsmInstruction::ImmF(a, b) => vec![Piece::Lit("imm   ("), Piece::Int(a), Piece::Lit(")fp, ("), Piece::Fe(b), Piece::Lit(")")],
        AsmInstruction::CopyF(a, b) => vec![Piece::Lit("copy  ("), Piece::Int(a), Piece::Lit(")fp, ("), Piece::Int(b), Piece::Lit(")")],
        AsmInstruction::AddF(a, b, c) => vec![Piece::Lit("add   ("), Piece::Int(a), Piece::Lit(")fp, ("), Piece::Int(b), Piece::Lit(")fp, ("), Piece::Int(c), Piece::Lit(")fp")],
        AsmInstruction::SubF(a, b, c) => vec![Piece::Lit("sub   ("), Piece::Int(a), Piece::Lit(")fp, ("), Piece::Int(b), Piece::Lit(")fp, ("), Piece::Int(c), Piece::Lit(")fp")],
        AsmInstruction::MulF(a, b, c) => vec![Piece::Lit("mul   ("), Piece::Int(a), Piece::Lit(")fp, ("), Piece::Int(b), Piece::Lit(")fp, ("), Piece::Int(c), Piece::Lit(")fp")],
        AsmInstruction::DivF(a, b, c) => vec![Piece::Lit("div   ("), Piece::Int(a), Piece::Lit(")fp, ("), Piece::Int(b), Piece::Lit(")fp, ("), Piece::Int(c), Piece::Lit(")fp")],
        AsmInstruction::AddE(a, b, c) => vec![Piece::Lit("eadd ("), Piece::Int(a), Piece::Lit(")fp, ("), Piece::Int(b), Piece::Lit(")fp, ("), Piece::Int(c), Piece::Lit(")fp")],
        AsmInstruction::SubE(a, b, c) => vec![Piece::Lit("esub  ("), Piece::Int(a), Piece::Lit(")fp, ("), Piece::Int(b), Piece::Lit(")fp, ("), Piece::Int(c), Piece::Lit(")fp")],
        AsmInstruction::MulE(a, b, c) => vec![Piece::Lit("emul  ("), Piece::Int(a), Piece::Lit(")fp, ("), Piece::Int(b), Piece::Lit(")fp, ("), Piece::Int(c), Piece::Lit(")fp")],
        AsmInstruction::DivE(a, b, c) => vec![Piece::Lit("ediv  ("), Piece::Int(a), Piece::Lit(")fp, ("), Piece::Int(b), Piece::Lit(")fp, ("), Piece::Int(c), Piece::Lit(")fp")],
        AsmInstruction::AddFI(a, b, c) => vec![Piece::Lit("addi  ("), Piece::Int(a), Piece::Lit(")fp, ("), Piece::Int(b), Piece::Lit(")fp, "), Piece::Fe(c)],
        AsmInstruction::SubFI(a, b, c) => vec![Piece::Lit("subi  ("), Piece::Int(a), Piece::Lit(")fp, ("), Piece::Int(b), Piece::Lit(")fp, "), Piece::Fe(c)],
        AsmInstruction::MulFI(a, b, c) => vec![Piece::Lit("muli  ("), Piece::Int(a), Piece::Lit(")fp, ("), Piece::Int(b), Piece::Lit(")fp, "), Piece::Fe(c)],
        AsmInstruction::DivFI(a, b, c) => vec![Piece::Lit("divi  ("), Piece::Int(a), Piece::Lit(")fp, ("), Piece::Int(b), Piece::Lit(")fp, "), Piece::Fe(c)],
        AsmInstruction::SubFIN(a, b, c) => vec![Piece::Lit("subin ("), Piece::Int(a), Piece::Lit(")fp, "), Piece::Fe(b), Piece::Lit(", ("), Piece::Int(c), Piece::Lit(")fp")],
        AsmInstruction::DivFIN(a, b, c) => vec![Piece::Lit("divi  ("), Piece::Int(a), Piece::Lit(")fp, "), Piece::Fe(b), Piece::Lit(", ("), Piece::Int(c), Piece::Lit(")fp")],
        AsmInstruction::Jump(a, b) => vec![Piece::Lit("j     ("), Piece::Int(a), Piece::Lit(")fp, "), Piece::Label(b)],
        AsmInstruction::Bne(a, b, c) => vec![Piece::Lit("bne   "), Piece::Label(a), Piece::Lit(", ("), Piece::Int(b), Piece::Lit(")fp, ("), Piece::Int(c), Piece::Lit(")fp")],
        AsmInstruction::Beq(a, b, c) => vec![Piece::Lit("beq  "), Piece::Label(a), Piece::Lit(", ("), Piece::Int(b), Piece::Lit(")fp, ("), Piece::Int(c), Piece::Lit(")fp")],
        AsmInstruction::BneE(a, b, c) => vec![Piece::Lit("ebne  "), Piece::Label(a), Piece::Lit(", ("), Piece::Int(b), Piece::Lit(")fp, ("), Piece::Int(c), Piece::Lit(")fp")],
        AsmInstruction::BeqE(a, b, c) => vec![Piece::Lit("ebeq  "), Piece::Label(a), Piece::Lit(", ("), Piece::Int(b), Piece::Lit(")fp, ("), Piece::Int(c), Piece::Lit(")fp")],
        AsmInstruction::BneI(a, b, c) => vec![Piece::Lit("bnei  "), Piece::Label(a), Piece::Lit(", ("), Piece::Int(b), Piece::Lit(")fp, "), Piece::Fe(c)],
        AsmInstruction::BeqI(a, b, c) => vec![Piece::Lit("beqi "), Piece::Label(a), Piece::Lit(", ("), Piece::Int(b), Piece::Lit(")fp, "), Piece::Fe(c)],
        AsmInstruction::BneEI(a, b, c) => vec![Piece::Lit("ebnei "), Piece::Label(a), Piece::Lit(", ("), Piece::Int(b), Piece::Lit(")fp, "), Piece::Ext(c)],
        AsmInstruction::BeqEI(a, b, c) => vec![Piece::Lit("ebeqi "), Piece::Label(a), Piece::Lit(", ("), Piece::Int(b), Piece::Lit(")fp, "), Piece::Ext(c)],
        AsmInstruction::Trap => vec![Piece::Lit("trap")],
        AsmInstruction::Halt => vec![Piece::Lit("halt")],
        AsmInstruction::HintBits(a, b) => vec![Piece::Lit("hint_bits ("), Piece::Int(a), Piece::Lit(")fp, "), Piece::Nat(b)],
        AsmInstruction::Poseidon2Permute(a, b) => vec![Piece::Lit("poseidon2_permute ("), Piece::Int(a), Piece::Lit(")fp, ("), Piece::Int(b), Piece::Lit(")fp")],
        AsmInstruction::Poseidon2Compress(a, b, c) => vec![Piece::Lit("poseidon2_compress ("), Piece::Int(a), Piece::Lit(")fp, ("), Piece::Int(b), Piece::Lit(")fp, ("), Piece::Int(c), Piece::Lit(")fp")],
        AsmInstruction::PrintF(a) => vec![Piece::Lit("print_f ("), Piece::Int(a), Piece::Lit(")fp")],
        AsmInstruction::PrintV(a) => vec![Piece::Lit("print_v ("), Piece::Int(a), Piece::Lit(")fp")],
        AsmInstruction::PrintE(a) => vec![Piece::Lit("print_e ("), Piece::Int(a), Piece::Lit(")fp")],
        AsmInstruction::HintInputVec => vec![Piece::Lit("hint_vec")],
        AsmInstruction::StoreHintWordI(a, b) => vec![Piece::Lit("shintw ("), Piece::Int(a), Piece::Lit(")fp "), Piece::Fe(b)],
        AsmInstruction::Publish(a, b) => vec![Piece::Lit("commit ("), Piece::Int(a), Piece::Lit(")fp ("), Piece::Int(b), Piece::Lit(")fp")],
        AsmInstruction::CycleTrackerStart => vec![Piece::Lit("cycle_tracker_start")],
        AsmInstruction::CycleTrackerEnd => vec![Piece::Lit("cycle_tracker_end")],
        AsmInstruction::FriReducedOpening(a, b, c, d, e, f, g) => vec![Piece::Lit("fri_mat_opening ("), Piece::Int(a), Piece::Lit(")fp, ("), Piece::Int(b), Piece::Lit(")fp, ("), Piece::Int(c), Piece::Lit(")fp, ("), Piece::Int(d), Piece::Lit(")fp, ("), Piece::Int(e), Piece::Lit(")fp, ("), Piece::Int(f), Piece::Lit(")fp, ("), Piece::Int(g), Piece::Lit(")fp")],
        _ => Vec::new(),
    };
    assert(r@ =~= pieces_spec(i));
    r
}

fn append_label(s: &mut String, labels: &Vec<(BabyBear, String)>, l: BabyBear)
    ensures
        final(s)@ == old(s)@ + label_text(labels_view(labels@), l),
{
    let ghost lv = labels_view(labels@);
    assert(lv.skip(0) =~= lv);
    let mut k: usize = 0;
    while k < labels.len()
        invariant
            k <= labels@.len(),
            lv == labels_view(labels@),
            label_lookup(lv, l) == label_lookup(lv.skip(k as int), l),
            *s == *old(s),
        decreases labels@.len() - k,
    {
        assert(lv.skip(k as int).drop_first() =~= lv.skip(k + 1));
        if labels[k].0 == l {
            s.append(labels[k].1.as_str());
            return;
        }
        k = k + 1;
    }
    assert(lv.skip(k as int).len() == 0);
    proof {
        reveal_strlit(".L");
    }
    s.append(".L");
    append_decimal(s, (l.v % crate::field::BABY_BEAR_P) as u64);
    assert(final(s)@ =~= old(s)@ + label_text(lv, l));
}

fn append_piece(s: &mut String, p: &Piece, labels: &Vec<(BabyBear, String)>)
    ensures
        final(s)@ == old(s)@ + piece_text(*p, labels_view(labels@)),
{
    match p {
        Piece::Lit(t) => s.append(t),
        Piece::Int(x) => append_signed(s, *x),
        Piece::Fe(f) => append_decimal(s, (f.v % crate::field::BABY_BEAR_P) as u64),
        Piece::Nat(n) => append_decimal(s, *n as u64),
        Piece::Ext(c) => append_ext(s, *c),
        Piece::Label(l) => append_label(s, labels, *l),
    }
}

impl AsmInstruction {
    /// The text of the instruction; labels are printed by name where `labels` names them.
    pub fn fmt(&self, labels: &Vec<(BabyBear, String)>) -> (r: String)
        requires
            printable(*self),
        ensures
            r@ == render(pieces_spec(*self), labels_view(labels@)),
    {
        let ps = pieces(*self);
        let mut s = String::new();
        let mut k: usize = 0;
        while k < ps.len()
            invariant
                k <= ps@.len(),
                s@ == render(ps@.take(k as int), labels_view(labels@)),
            decreases ps@.len() - k,
        {
            append_piece(&mut s, &ps[k], labels);
            assert(ps@.take(k + 1).drop_last() =~= ps@.take(k as int));
            k = k + 1;
        }
        assert(ps@.take(k as int) =~= ps@);
        s
    }
}

} // verus!
