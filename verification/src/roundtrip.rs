//! The canonical text of an address reads back as that address: the proof
//! that the grammar of `ip` and its printer agree.

use vstd::prelude::*;
use crate::ip::{
    gap_index, group_list, group_text, hex_groups, ip_literal, ip_text, ipv4_octets, ipv4_text,
    ipv6_groups, ipv6_text, is_ipv4_mapped, joined_groups, lemma_gap_index, longest_zero_run,
    octet_text, quad_groups, zero_run, IpValue,
};
use crate::text::{
    all_digits, decimal, digit_char, digit_value, hexadecimal, index_of, lemma_index_of,
    lemma_index_of_bounds, number_value, split,
};

verus! {

/// A digit reads back as its value.
pub proof fn lemma_digit_char_value(d: int)
    requires
        0 <= d < 16,
    ensures
        digit_value(digit_char(d)) == d,
        digit_char(d) != ':',
        digit_char(d) != '.',
        d != 0 ==> digit_char(d) != '0',
{
}

/// Appending a digit multiplies by the radix and adds the digit.
pub proof fn lemma_number_value_push(s: Seq<char>, c: char, radix: int)
    ensures
        number_value(s.push(c), radix) == number_value(s, radix) * radix + digit_value(c),
{
    assert(s.push(c).drop_last() =~= s);
    assert(s.push(c).last() == c);
}

/// A number in decimal is made of decimal digits that write the number, as
/// many as the number needs, and begins with zero only when it is zero.
pub proof fn lemma_decimal(n: nat)
    ensures
        decimal(n).len() >= 1,
        all_digits(decimal(n), 10),
        number_value(decimal(n), 10) == n,
        n >= 1 ==> decimal(n)[0] != '0',
        n < 10 ==> decimal(n).len() == 1,
        10 <= n < 100 ==> decimal(n).len() == 2,
        100 <= n < 1000 ==> decimal(n).len() == 3,
    decreases n,
{
    if n < 10 {
        lemma_digit_char_value(n as int);
        lemma_number_value_push(Seq::empty(), digit_char(n as int), 10);
        assert(seq![digit_char(n as int)] =~= Seq::<char>::empty().push(digit_char(n as int)));
    } else {
        let init = decimal(n / 10);
        let d = digit_char((n % 10) as int);
        lemma_decimal(n / 10);
        lemma_digit_char_value((n % 10) as int);
        lemma_number_value_push(init, d, 10);
        assert(decimal(n)[0] == init[0]);
        assert forall|i: int| 0 <= i < decimal(n).len() implies 0 <= #[trigger] digit_value(
            decimal(n)[i],
        ) < 10 by {
            if i < init.len() {
                assert(decimal(n)[i] == init[i]);
            }
        }
    }
}

/// A number in hexadecimal is made of hexadecimal digits that write the
/// number, as many as the number needs.
pub proof fn lemma_hexadecimal(n: nat)
    ensures
        hexadecimal(n).len() >= 1,
        all_digits(hexadecimal(n), 16),
        number_value(hexadecimal(n), 16) == n,
        n < 0x10 ==> hexadecimal(n).len() == 1,
        0x10 <= n < 0x100 ==> hexadecimal(n).len() == 2,
        0x100 <= n < 0x1000 ==> hexadecimal(n).len() == 3,
        0x1000 <= n < 0x10000 ==> hexadecimal(n).len() == 4,
    decreases n,
{
    if n < 16 {
        lemma_digit_char_value(n as int);
        lemma_number_value_push(Seq::empty(), digit_char(n as int), 16);
        assert(seq![digit_char(n as int)] =~= Seq::<char>::empty().push(digit_char(n as int)));
    } else {
        let init = hexadecimal(n / 16);
        let d = digit_char((n % 16) as int);
        lemma_hexadecimal(n / 16);
        lemma_digit_char_value((n % 16) as int);
        lemma_number_value_push(init, d, 16);
        assert forall|i: int| 0 <= i < hexadecimal(n).len() implies 0 <= #[trigger] digit_value(
            hexadecimal(n)[i],
        ) < 16 by {
            if i < init.len() {
                assert(hexadecimal(n)[i] == init[i]);
            }
        }
    }
}

/// Text made of digits holds neither a dot nor a colon.
pub proof fn lemma_digits_hold_no_separator(s: Seq<char>, radix: int)
    requires
        all_digits(s, radix),
    ensures
        !s.contains('.'),
        !s.contains(':'),
{
    assert forall|i: int| 0 <= i < s.len() implies s[i] != '.' && s[i] != ':' by {
        assert(0 <= digit_value(s[i]));
    }
}

/// Text without the separator is one piece.
pub proof fn lemma_split_one(s: Seq<char>, sep: char)
    requires
        !s.contains(sep),
    ensures
        split(s, sep) == seq![s],
{
    lemma_index_of(s, sep, s.len() as int);
}

/// Two texts with a separator between them split into the pieces of the
/// first and then the pieces of the second.
pub proof fn lemma_split_joined(a: Seq<char>, b: Seq<char>, sep: char)
    ensures
        split(a + seq![sep] + b, sep) == split(a, sep) + split(b, sep),
    decreases a.len(),
{
    let whole = a + seq![sep] + b;
    let i = index_of(a, sep);
    lemma_index_of_bounds(a, sep);
    assert forall|j: int| 0 <= j < i implies #[trigger] whole[j] != sep by {
        assert(whole[j] == a[j]);
    }
    if i < a.len() {
        assert(whole[i] == a[i]);
        lemma_index_of(whole, sep, i);
        assert(whole.take(i) =~= a.take(i));
        assert(whole.skip(i + 1) =~= a.skip(i + 1) + seq![sep] + b);
        lemma_split_joined(a.skip(i + 1), b, sep);
        assert(split(whole, sep) =~= seq![a.take(i)] + (split(a.skip(i + 1), sep) + split(b, sep)));
        assert(split(a, sep) =~= seq![a.take(i)] + split(a.skip(i + 1), sep));
    } else {
        assert(whole[i] == sep);
        lemma_index_of(whole, sep, i);
        assert(whole.take(i) =~= a);
        assert(whole.skip(i + 1) =~= b);
        assert(split(a, sep) =~= seq![a]);
    }
}

/// An octet in decimal is the text of that octet.
pub proof fn lemma_octet_text(n: u8)
    ensures
        octet_text(decimal(n as nat)),
        number_value(decimal(n as nat), 10) == n,
        !decimal(n as nat).contains('.'),
        !decimal(n as nat).contains(':'),
{
    lemma_decimal(n as nat);
    lemma_digits_hold_no_separator(decimal(n as nat), 10);
}

/// A group in hexadecimal is the text of that group.
pub proof fn lemma_group_text(n: u16)
    ensures
        group_text(hexadecimal(n as nat)),
        number_value(hexadecimal(n as nat), 16) == n,
        !hexadecimal(n as nat).contains('.'),
        !hexadecimal(n as nat).contains(':'),
{
    lemma_hexadecimal(n as nat);
    lemma_digits_hold_no_separator(hexadecimal(n as nat), 16);
}

/// A dotted quad reads back as its four octets. It holds dots and no
/// colon.
pub proof fn lemma_ipv4_roundtrip(octets: Seq<u8>)
    requires
        octets.len() == 4,
    ensures
        ipv4_octets(ipv4_text(octets)) == Some(octets),
        !ipv4_text(octets).contains(':'),
        ipv4_text(octets).contains('.'),
{
    let a = decimal(octets[0] as nat);
    let b = decimal(octets[1] as nat);
    let c = decimal(octets[2] as nat);
    let d = decimal(octets[3] as nat);
    let dot = seq!['.'];
    lemma_octet_text(octets[0]);
    lemma_octet_text(octets[1]);
    lemma_octet_text(octets[2]);
    lemma_octet_text(octets[3]);
    let text = ipv4_text(octets);
    let cd = c + dot + d;
    let bcd = b + dot + cd;
    assert(text =~= a + dot + bcd);
    lemma_split_joined(a, bcd, '.');
    lemma_split_joined(b, cd, '.');
    lemma_split_joined(c, d, '.');
    lemma_split_one(a, '.');
    lemma_split_one(b, '.');
    lemma_split_one(c, '.');
    lemma_split_one(d, '.');
    let parts = split(text, '.');
    assert(parts =~= seq![a, b, c, d]);
    assert forall|i: int| 0 <= i < 4 implies octet_text(#[trigger] parts[i]) by {}
    assert(Seq::new(4, |i: int| number_value(parts[i], 10) as u8) =~= octets);
    assert(text[a.len() as int] == '.');
    assert forall|i: int| 0 <= i < text.len() implies text[i] != ':' by {
        if i < a.len() {
            assert(text[i] == a[i]);
        } else if i < a.len() + 1 {
        } else if i < a.len() + 1 + b.len() {
            assert(text[i] == b[i - a.len() - 1]);
        } else if i < a.len() + 1 + b.len() + 1 {
        } else if i < a.len() + 1 + b.len() + 1 + c.len() {
            assert(text[i] == c[i - a.len() - 1 - b.len() - 1]);
        } else if i < a.len() + 1 + b.len() + 1 + c.len() + 1 {
        } else {
            assert(text[i] == d[i - a.len() - 1 - b.len() - 1 - c.len() - 1]);
        }
    }
}

/// A character of a text other than the separator stands in one of the
/// pieces of the text.
pub proof fn lemma_split_keeps_chars(s: Seq<char>, sep: char, c: char)
    requires
        s.contains(c),
        c != sep,
    ensures
        exists|k: int| 0 <= k < split(s, sep).len() && (#[trigger] split(s, sep)[k]).contains(c),
    decreases s.len(),
{
    let i = index_of(s, sep);
    lemma_index_of_bounds(s, sep);
    let j = choose|j: int| 0 <= j < s.len() && s[j] == c;
    if i >= s.len() {
        assert(split(s, sep)[0] == s);
    } else if j < i {
        assert(s.take(i)[j] == c);
        assert(split(s, sep)[0] == s.take(i));
    } else {
        let rest = s.skip(i + 1);
        assert(rest[j - i - 1] == c);
        lemma_split_keeps_chars(rest, sep, c);
        let k = choose|k: int|
            0 <= k < split(rest, sep).len() && (#[trigger] split(rest, sep)[k]).contains(c);
        assert(split(s, sep)[k + 1] == split(rest, sep)[k]);
    }
}

/// Text with a colon in it is no dotted quad.
pub proof fn lemma_colon_is_no_quad(s: Seq<char>)
    requires
        s.contains(':'),
    ensures
        ipv4_octets(s) is None,
{
    lemma_split_keeps_chars(s, '.', ':');
    let parts = split(s, '.');
    let k = choose|k: int| 0 <= k < parts.len() && (#[trigger] parts[k]).contains(':');
    let j = choose|j: int| 0 <= j < parts[k].len() && parts[k][j] == ':';
    assert(digit_value(parts[k][j]) == -1);
    assert(!octet_text(parts[k]));
}

/// No two colons stand side by side in `s`.
pub open spec fn has_no_gap(s: Seq<char>) -> bool {
    forall|i: int| 0 <= i && i + 1 < s.len() ==> !(#[trigger] s[i] == ':' && s[i + 1] == ':')
}

/// The groups of `groups` in hexadecimal.
pub open spec fn group_texts(groups: Seq<u16>) -> Seq<Seq<char>> {
    Seq::new(groups.len(), |i: int| hexadecimal(groups[i] as nat))
}

/// Groups joined by colons split at the colons into the groups again; the
/// text begins and ends with a digit and has no two colons side by side.
pub proof fn lemma_joined_groups(groups: Seq<u16>)
    requires
        groups.len() >= 1,
    ensures
        joined_groups(groups).len() >= 1,
        joined_groups(groups)[0] != ':',
        joined_groups(groups).last() != ':',
        has_no_gap(joined_groups(groups)),
        split(joined_groups(groups), ':') == group_texts(groups),
    decreases groups.len(),
{
    let last = hexadecimal(groups.last() as nat);
    lemma_group_text(groups.last());
    assert(0 <= digit_value(last[0]));
    assert(0 <= digit_value(last.last()));
    if groups.len() == 1 {
        lemma_split_one(last, ':');
        assert(group_texts(groups) =~= seq![last]);
    } else {
        let init = groups.drop_last();
        let head = joined_groups(init);
        let text = joined_groups(groups);
        lemma_joined_groups(init);
        lemma_split_joined(head, last, ':');
        lemma_split_one(last, ':');
        assert(text =~= head + seq![':'] + last);
        assert(text[0] == head[0]);
        assert(text.last() == last.last());
        assert(group_texts(groups) =~= group_texts(init) + seq![last]);
        assert forall|i: int| 0 <= i && i + 1 < text.len() implies !(#[trigger] text[i] == ':'
            && text[i + 1] == ':') by {
            if i + 1 < head.len() {
                assert(text[i] == head[i]);
                assert(text[i + 1] == head[i + 1]);
            } else if i + 1 == head.len() {
                assert(text[i] == head.last());
            } else if i == head.len() {
                assert(text[i + 1] == last[0]);
            } else {
                assert(text[i] == last[i - head.len() - 1]);
                assert(0 <= digit_value(last[i - head.len() - 1]));
            }
        }
    }
}

/// Groups joined by colons read back as a list of those groups.
pub proof fn lemma_group_list_of_joined(groups: Seq<u16>, quad_allowed: bool)
    ensures
        group_list(joined_groups(groups), quad_allowed) == Some(groups),
        groups.len() == 0 <==> joined_groups(groups).len() == 0,
{
    if groups.len() == 0 {
        assert(groups =~= Seq::<u16>::empty());
    } else {
        lemma_joined_groups(groups);
        let pieces = split(joined_groups(groups), ':');
        assert forall|i: int| 0 <= i < pieces.len() implies group_text(#[trigger] pieces[i]) by {
            lemma_group_text(groups[i]);
        }
        assert(hex_groups(pieces)->0 =~= groups) by {
            assert forall|i: int| 0 <= i < groups.len() implies hex_groups(pieces)->0[i]
                == groups[i] by {
                lemma_group_text(groups[i]);
            }
        }
    }
}

/// A run of zero groups lies within the groups, and is made of zeros.
pub proof fn lemma_zero_run(groups: Seq<u16>, i: int)
    requires
        0 <= i <= groups.len(),
    ensures
        0 <= zero_run(groups, i) <= groups.len() - i,
        forall|k: int| i <= k < i + zero_run(groups, i) ==> groups[k] == 0,
    decreases groups.len() - i,
{
    if i < groups.len() && groups[i] == 0 {
        lemma_zero_run(groups, i + 1);
    }
}

/// The longest run of zero groups is a run of zero groups.
pub proof fn lemma_longest_zero_run(groups: Seq<u16>, from: int)
    requires
        0 <= from <= groups.len(),
    ensures
        longest_zero_run(groups, from).1 >= 0,
        longest_zero_run(groups, from).1 > 0 ==> {
            &&& from <= longest_zero_run(groups, from).0 < groups.len()
            &&& longest_zero_run(groups, from).1 == zero_run(
                groups,
                longest_zero_run(groups, from).0,
            )
        },
    decreases groups.len() - from,
{
    if from < groups.len() {
        lemma_longest_zero_run(groups, from + 1);
        lemma_zero_run(groups, from);
    }
}

/// Eight groups joined by colons read back as those groups.
pub proof fn lemma_plain_roundtrip(groups: Seq<u16>)
    requires
        groups.len() == 8,
    ensures
        ipv6_groups(joined_groups(groups)) == Some(groups),
        joined_groups(groups).contains(':'),
{
    let text = joined_groups(groups);
    lemma_joined_groups(groups);
    lemma_group_list_of_joined(groups, true);
    lemma_gap_index(text, text.len() as int);
    let init = groups.drop_last();
    lemma_joined_groups(init);
    assert(text[joined_groups(init).len() as int] == ':');
}

/// Groups with a run of two or more zeros written as a pair of colons read
/// back as those groups.
pub proof fn lemma_compressed_roundtrip(groups: Seq<u16>, start: int, len: int)
    requires
        groups.len() == 8,
        0 <= start,
        2 <= len,
        start + len <= 8,
        forall|k: int| start <= k < start + len ==> groups[k] == 0,
    ensures
        ipv6_groups(
            joined_groups(groups.take(start)) + "::"@ + joined_groups(groups.skip(start + len)),
        ) == Some(groups),
        (joined_groups(groups.take(start)) + "::"@ + joined_groups(
            groups.skip(start + len),
        )).contains(':'),
{
    reveal_strlit("::");
    let head = groups.take(start);
    let tail = groups.skip(start + len);
    let head_text = joined_groups(head);
    let tail_text = joined_groups(tail);
    let text = head_text + "::"@ + tail_text;
    let p = head_text.len() as int;
    lemma_group_list_of_joined(head, false);
    lemma_group_list_of_joined(tail, true);
    assert(text[p] == ':');
    assert(text[p + 1] == ':');
    if head.len() > 0 {
        lemma_joined_groups(head);
        assert forall|i: int| 0 <= i < p && i + 1 < text.len() implies !(#[trigger] text[i] == ':'
            && text[i + 1] == ':') by {
            if i + 1 < p {
                assert(text[i] == head_text[i]);
                assert(text[i + 1] == head_text[i + 1]);
            } else {
                assert(text[i] == head_text.last());
            }
        }
    }
    lemma_gap_index(text, p);
    assert(text.take(p) =~= head_text);
    assert(text.skip(p + 2) =~= tail_text);
    assert(head + Seq::new((8 - head.len() - tail.len()) as nat, |i: int| 0u16) + tail =~= groups);
}

/// An address written after `::ffff:` as a dotted quad reads back as the
/// IPv4-mapped address.
pub proof fn lemma_mapped_roundtrip(groups: Seq<u16>)
    requires
        is_ipv4_mapped(groups),
    ensures
        ipv6_groups(ipv6_text(groups)) == Some(groups),
        ipv6_text(groups).contains(':'),
{
    reveal_strlit("::ffff:");
    let quad = seq![
        (groups[6] / 256) as u8,
        (groups[6] % 256) as u8,
        (groups[7] / 256) as u8,
        (groups[7] % 256) as u8,
    ];
    let quad_text = ipv4_text(quad);
    let text = "::ffff:"@ + quad_text;
    let ffff = seq!['f', 'f', 'f', 'f'];
    lemma_ipv4_roundtrip(quad);
    assert(text == ipv6_text(groups));
    assert(text[0] == ':');
    assert(text[1] == ':');
    lemma_gap_index(text, 0);
    assert(text.take(0) =~= Seq::<char>::empty());
    let tail_text = text.skip(2);
    assert(tail_text =~= ffff + seq![':'] + quad_text);
    lemma_split_joined(ffff, quad_text, ':');
    lemma_split_one(ffff, ':');
    lemma_split_one(quad_text, ':');
    let pieces = split(tail_text, ':');
    assert(pieces =~= seq![ffff, quad_text]);
    assert(!group_text(pieces[1])) by {
        let i = choose|i: int| 0 <= i < quad_text.len() && quad_text[i] == '.';
        assert(digit_value(quad_text[i]) == -1);
    }
    assert(pieces.drop_last() =~= seq![ffff]);
    assert(pieces.last() == quad_text);
    assert(number_value(ffff, 16) == 0xffff) by {
        reveal_with_fuel(number_value, 5);
        assert(ffff.drop_last() =~= seq!['f', 'f', 'f']);
        assert(ffff.drop_last().drop_last() =~= seq!['f', 'f']);
        assert(ffff.drop_last().drop_last().drop_last() =~= seq!['f']);
        assert(ffff.drop_last().drop_last().drop_last().drop_last() =~= Seq::<char>::empty());
    }
    assert(group_text(ffff));
    assert forall|i: int| 0 <= i < pieces.drop_last().len() implies group_text(
        #[trigger] pieces.drop_last()[i],
    ) by {}
    assert(hex_groups(pieces.drop_last())->0 =~= seq![0xffffu16]);
    let tail = seq![0xffffu16] + quad_groups(quad);
    assert(group_list(tail_text, true) == Some(tail));
    assert(Seq::<u16>::empty() + Seq::new((8 - 0 - tail.len()) as nat, |i: int| 0u16) + tail
        =~= groups);
}

/// The canonical text of an IPv6 address reads back as that address, and
/// is no dotted quad.
pub proof fn lemma_ipv6_roundtrip(groups: Seq<u16>)
    requires
        groups.len() == 8,
    ensures
        ipv6_groups(ipv6_text(groups)) == Some(groups),
        ipv4_octets(ipv6_text(groups)) is None,
{
    if is_ipv4_mapped(groups) {
        lemma_mapped_roundtrip(groups);
    } else {
        let (start, len) = longest_zero_run(groups, 0);
        if len > 1 {
            lemma_longest_zero_run(groups, 0);
            lemma_zero_run(groups, start);
            lemma_compressed_roundtrip(groups, start, len);
        } else {
            lemma_plain_roundtrip(groups);
        }
    }
    lemma_colon_is_no_quad(ipv6_text(groups));
}

/// An address has the octets or the groups of its version.
pub open spec fn well_formed(ip: IpValue) -> bool {
    match ip {
        IpValue::V4(octets) => octets.len() == 4,
        IpValue::V6(groups) => groups.len() == 8,
    }
}

/// The canonical text of an address writes that address.
pub proof fn lemma_canonical_text_reads_back(ip: IpValue)
    requires
        well_formed(ip),
    ensures
        ip_literal(ip_text(ip)) == Some(ip),
{
    match ip {
        IpValue::V4(octets) => lemma_ipv4_roundtrip(octets),
        IpValue::V6(groups) => lemma_ipv6_roundtrip(groups),
    }
}

/// Two addresses with the same canonical text are the same address.
pub proof fn lemma_canonical_text_is_unique(a: IpValue, b: IpValue)
    requires
        well_formed(a),
        well_formed(b),
        ip_text(a) == ip_text(b),
    ensures
        a == b,
{
    lemma_canonical_text_reads_back(a);
    lemma_canonical_text_reads_back(b);
}

/// What a literal writes is an address: four octets, or eight groups.
pub proof fn lemma_literal_is_well_formed(s: Seq<char>)
    requires
        ip_literal(s) is Some,
    ensures
        well_formed(ip_literal(s)->0),
{
}

/// Writing the address of a literal in canonical form and reading it again
/// gives the same address: the canonical form of a canonical text is
/// itself.
pub proof fn lemma_canonical_form_is_stable(s: Seq<char>)
    requires
        ip_literal(s) is Some,
    ensures
        ip_literal(ip_text(ip_literal(s)->0)) == ip_literal(s),
{
    lemma_literal_is_well_formed(s);
    lemma_canonical_text_reads_back(ip_literal(s)->0);
}

} // verus!
