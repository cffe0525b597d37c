//! The human-readable definition of the resolvent generating function
//! `F_{g,d}^X(z_0,...; t_0,...)` printed by the resolvent command.

use vstd::prelude::*;
use crate::text::{decimal, join_seqs, join_strings, push_str, push_string, push_usize, string_from};

verus! {

pub open spec fn twist_summand_text(degree: usize) -> Seq<char> {
    "O(-"@ + decimal(degree as nat) + ")"@
}

/// `O(-d_1) + O(-d_2) + ...`.
pub open spec fn twist_bundle_text(degrees: Seq<usize>) -> Seq<char> {
    join_seqs(degrees.map_values(|d: usize| twist_summand_text(d)), " + "@)
}

/// `P^n`, followed by the twisting bundle when a nonempty twist is given.
pub open spec fn target_label_text(n: usize, twist: Option<Seq<usize>>) -> Seq<char> {
    let base = "P^"@ + decimal(n as nat);
    match twist {
        Some(degrees) => if degrees.len() > 0 { base + ", "@ + twist_bundle_text(degrees) } else { base },
        None => base,
    }
}

/// `prefix_0`, or `prefix_0,...,prefix_<count-1>`, or nothing.
pub open spec fn variable_range_text(prefix: Seq<char>, count: usize) -> Seq<char> {
    if count == 0 {
        Seq::empty()
    } else if count == 1 {
        prefix + "_0"@
    } else {
        prefix + "_0,..."@ + ","@ + prefix + "_"@ + decimal((count - 1) as nat)
    }
}

pub open spec fn arguments_text(markings: usize) -> Seq<char> {
    if markings == 0 {
        Seq::empty()
    } else {
        variable_range_text("z"@, markings) + "; "@ + variable_range_text("t"@, markings)
    }
}

pub open spec fn insertion_range_text(markings: usize) -> Seq<char> {
    if markings == 0 {
        Seq::empty()
    } else if markings == 1 {
        "I_0(z_0,t_0)"@
    } else {
        let last = decimal((markings - 1) as nat);
        "I_0(z_0,t_0), ..., I_"@ + last + "(z_"@ + last + ",t_"@ + last + ")"@
    }
}

pub open spec fn definition_head_text(target: Seq<char>, genus: usize, degree: usize, markings: usize) -> Seq<char> {
    let g = decimal(genus as nat);
    let d = decimal(degree as nat);
    if markings == 0 {
        "  F_{"@ + g + ","@ + d + "}^{"@ + target + "}\n"@
    } else {
        "  F_{"@ + g + ","@ + d + "}^{"@ + target + "}("@ + arguments_text(markings) + ")\n"@
    }
}

pub open spec fn definition_body_text(n: usize, target: Seq<char>, genus: usize, degree: usize, markings: usize) -> Seq<char> {
    let g = decimal(genus as nat);
    let d = decimal(degree as nat);
    if markings == 0 {
        "      < 1 >_{"@ + g + ","@ + d + "}^{"@ + target + "}\n"@
    } else {
        "      < "@ + insertion_range_text(markings) + " >_{"@ + g + ","@ + d + "}^{"@ + target + "}\n"@
            + "  where, for each marking ell,\n"@
            + "      I_ell(z_ell,t_ell)\n"@
            + "        =\n"@
            + "          sum_{a=0}^{"@ + decimal(n as nat) + "} t_ell^a H^a/a!\n"@
            + "          -------------------------------\n"@
            + "                  z_ell - psi_ell\n"@
            + "  expansion convention: 1/(z_ell - psi_ell) = sum_{k>=0} psi_ell^k z_ell^{-k-1}\n"@
    }
}

pub open spec fn definition_text(n: usize, genus: usize, degree: usize, markings: usize, twist: Option<Seq<usize>>) -> Seq<char> {
    let target = target_label_text(n, twist);
    "definition:\n"@ + definition_head_text(target, genus, degree, markings) + "    =\n"@
        + definition_body_text(n, target, genus, degree, markings)
}

pub fn twist_bundle_label(degrees: &[usize]) -> (out: String)
    ensures
        out@ == twist_bundle_text(degrees@),
{
    let mut parts: Vec<String> = Vec::new();
    let mut i: usize = 0;
    while i < degrees.len()
        invariant
            i <= degrees@.len(),
            parts@.len() == i,
            forall|j: int| 0 <= j < i ==> #[trigger] parts@[j]@ == twist_summand_text(degrees@[j]),
        decreases degrees@.len() - i,
    {
        let mut part = string_from("O(-");
        push_usize(&mut part, degrees[i]);
        push_str(&mut part, ")");
        parts.push(part);
        i += 1;
    }
    proof {
        assert(parts@.map_values(|s: String| s@) =~= degrees@.map_values(|d: usize| twist_summand_text(d)));
    }
    join_strings(&parts, " + ")
}

pub fn resolvent_target_label(n: usize, twist: Option<&[usize]>) -> (out: String)
    ensures
        out@ == target_label_text(n, match twist { Some(t) => Some(t@), None => None }),
{
    let mut out = string_from("P^");
    push_usize(&mut out, n);
    match twist {
        Some(degrees) => {
            if degrees.len() > 0 {
                push_str(&mut out, ", ");
                let label = twist_bundle_label(degrees);
                push_string(&mut out, &label);
            }
        },
        None => {},
    }
    out
}

pub fn indexed_variable_range(prefix: &str, count: usize) -> (out: String)
    ensures
        out@ == variable_range_text(prefix@, count),
{
    if count == 0 {
        String::new()
    } else if count == 1 {
        let mut out = string_from(prefix);
        push_str(&mut out, "_0");
        out
    } else {
        let mut out = string_from(prefix);
        push_str(&mut out, "_0,...");
        push_str(&mut out, ",");
        push_str(&mut out, prefix);
        push_str(&mut out, "_");
        push_usize(&mut out, count - 1);
        out
    }
}

pub fn resolvent_arguments(markings: usize) -> (out: String)
    ensures
        out@ == arguments_text(markings),
{
    if markings == 0 {
        String::new()
    } else {
        let mut out = indexed_variable_range("z", markings);
        push_str(&mut out, "; ");
        let t = indexed_variable_range("t", markings);
        push_string(&mut out, &t);
        out
    }
}

pub fn resolvent_insertion_range(markings: usize) -> (out: String)
    ensures
        out@ == insertion_range_text(markings),
{
    if markings == 0 {
        String::new()
    } else if markings == 1 {
        string_from("I_0(z_0,t_0)")
    } else {
        let last = markings - 1;
        let mut out = string_from("I_0(z_0,t_0), ..., I_");
        push_usize(&mut out, last);
        push_str(&mut out, "(z_");
        push_usize(&mut out, last);
        push_str(&mut out, ",t_");
        push_usize(&mut out, last);
        push_str(&mut out, ")");
        out
    }
}

fn push_definition_head(out: &mut String, target: &String, genus: usize, degree: usize, markings: usize)
    ensures
        final(out)@ == old(out)@ + definition_head_text(target@, genus, degree, markings),
{
    push_str(out, "  F_{");
    push_usize(out, genus);
    push_str(out, ",");
    push_usize(out, degree);
    push_str(out, "}^{");
    push_string(out, target);
    if markings == 0 {
        push_str(out, "}\n");
    } else {
        push_str(out, "}(");
        let arguments = resolvent_arguments(markings);
        push_string(out, &arguments);
        push_str(out, ")\n");
    }
    proof {
        assert(final(out)@ =~= old(out)@ + definition_head_text(target@, genus, degree, markings));
    }
}

fn push_definition_body(out: &mut String, n: usize, target: &String, genus: usize, degree: usize, markings: usize)
    ensures
        final(out)@ == old(out)@ + definition_body_text(n, target@, genus, degree, markings),
{
    if markings == 0 {
        push_str(out, "      < 1 >_{");
    } else {
        push_str(out, "      < ");
        let range = resolvent_insertion_range(markings);
        push_string(out, &range);
        push_str(out, " >_{");
    }
    push_usize(out, genus);
    push_str(out, ",");
    push_usize(out, degree);
    push_str(out, "}^{");
    push_string(out, target);
    push_str(out, "}\n");
    let ghost mid = out@;
    if markings > 0 {
        push_str(out, "  where, for each marking ell,\n");
        push_str(out, "      I_ell(z_ell,t_ell)\n");
        push_str(out, "        =\n");
        push_str(out, "          sum_{a=0}^{");
        push_usize(out, n);
        push_str(out, "} t_ell^a H^a/a!\n");
        push_str(out, "          -------------------------------\n");
        push_str(out, "                  z_ell - psi_ell\n");
        push_str(out, "  expansion convention: 1/(z_ell - psi_ell) = sum_{k>=0} psi_ell^k z_ell^{-k-1}\n");
    }
    proof {
        assert(final(out)@ =~= old(out)@ + definition_body_text(n, target@, genus, degree, markings));
    }
}

/// The printed definition of `F_{g,d}` for `n`-dimensional projective space
/// (optionally twisted) with the given number of markings.
pub fn resolvent_definition_text(n: usize, genus: usize, degree: usize, markings: usize, twist: Option<&[usize]>) -> (out: String)
    ensures
        out@ == definition_text(n, genus, degree, markings, match twist { Some(t) => Some(t@), None => None }),
{
    let target = resolvent_target_label(n, twist);
    let mut out = string_from("definition:\n");
    push_definition_head(&mut out, &target, genus, degree, markings);
    push_str(&mut out, "    =\n");
    push_definition_body(&mut out, n, &target, genus, degree, markings);
    out
}

} // verus!
