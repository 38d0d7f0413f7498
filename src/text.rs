use vstd::prelude::*;

verus! {

/// The token in a trigger that stands for its environment's prefix.
pub open spec fn placeholder() -> Seq<char> {
    seq!['*', '*']
}

/// Every non-overlapping occurrence of the placeholder, taken from the left,
/// replaced by `prefix`.
pub open spec fn substitute(s: Seq<char>, prefix: Seq<char>) -> Seq<char>
    decreases s.len(),
{
    if s.len() < 2 {
        s
    } else if s[0] == '*' && s[1] == '*' {
        prefix + substitute(s.subrange(2, s.len() as int), prefix)
    } else {
        seq![s[0]] + substitute(s.subrange(1, s.len() as int), prefix)
    }
}

/// `n` blanks.
pub open spec fn blanks(n: nat) -> Seq<char>
    decreases n,
{
    if n == 0 {
        Seq::empty()
    } else {
        blanks((n - 1) as nat).push(' ')
    }
}

/// `s` followed by blanks up to `width` characters; never shortened.
pub open spec fn pad_label(s: Seq<char>, width: nat) -> Seq<char> {
    if s.len() >= width {
        s
    } else {
        s + blanks((width - s.len()) as nat)
    }
}

/// Replaces each occurrence of the placeholder `**` in `trigger` by `prefix`.
pub fn substitute_placeholder(trigger: &str, prefix: &str) -> (r: String)
    ensures
        r@ == substitute(trigger@, prefix@),
{
    let n = trigger.unicode_len();
    let mut out = String::new();
    let mut i: usize = 0;
    assert(trigger@.subrange(0, n as int) =~= trigger@);
    assert(out@ + substitute(trigger@, prefix@) =~= substitute(trigger@, prefix@));
    while i < n
        invariant
            n == trigger@.len(),
            i <= n,
            substitute(trigger@, prefix@) == out@ + substitute(
                trigger@.subrange(i as int, n as int),
                prefix@,
            ),
        decreases n - i,
    {
        let ghost rest = trigger@.subrange(i as int, n as int);
        if i + 1 < n && trigger.get_char(i) == '*' && trigger.get_char(i + 1) == '*' {
            assert(rest.subrange(2, rest.len() as int) =~= trigger@.subrange(
                i + 2,
                n as int,
            ));
            out.append(prefix);
            i = i + 2;
        } else {
            let one = trigger.substring_char(i, i + 1);
            assert(rest.subrange(1, rest.len() as int) =~= trigger@.subrange(
                i + 1,
                n as int,
            ));
            assert(one@ =~= seq![rest[0]]);
            out.append(one);
            i = i + 1;
        }
    }
    assert(trigger@.subrange(n as int, n as int) =~= Seq::<char>::empty());
    assert(out@ + Seq::<char>::empty() =~= out@);
    out
}

/// Extends `label` with blanks to at least `width` characters.
pub fn pad_to_width(label: &str, width: usize) -> (r: String)
    ensures
        r@ == pad_label(label@, width as nat),
{
    let n = label.unicode_len();
    let mut out = String::from_str(label);
    if n >= width {
        return out;
    }
    let mut k: usize = 0;
    while k < width - n
        invariant
            n == label@.len(),
            n < width,
            k <= width - n,
            out@ == label@ + blanks(k as nat),
        decreases width - n - k,
    {
        let blank = " ";
        proof {
            reveal_strlit(" ");
        }
        out.append(blank);
        proof {
            assert(blank@ =~= seq![' ']);
            assert(blanks((k + 1) as nat) == blanks(k as nat).push(' '));
            assert(label@ + blanks(k as nat).push(' ') =~= (label@ + blanks(k as nat)) + seq![
                ' ',
            ]);
        }
        k = k + 1;
    }
    out
}

} // verus!
