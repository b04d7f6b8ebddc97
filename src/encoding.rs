use vstd::prelude::*;
use crate::amount::U256;

verus! {

/// The lowercase hexadecimal digits.
pub open spec fn hex_digits() -> Seq<char> {
    seq!['0', '1', '2', '3', '4', '5', '6', '7', '8', '9', 'a', 'b', 'c', 'd', 'e', 'f']
}

/// Two lowercase hexadecimal digits per byte, most significant first.
pub open spec fn hex_lower(b: Seq<u8>) -> Seq<char>
    decreases b.len(),
{
    if b.len() == 0 {
        Seq::empty()
    } else {
        let last = b.last() as int;
        hex_lower(b.drop_last()) + seq![hex_digits()[last / 16], hex_digits()[last % 16]]
    }
}

/// The decimal digits of a natural number, without leading zeros.
pub open spec fn decimal(n: nat) -> Seq<char>
    decreases n,
{
    if n < 10 {
        seq![seq!['0', '1', '2', '3', '4', '5', '6', '7', '8', '9'][n as int]]
    } else {
        decimal(n / 10) + seq![seq!['0', '1', '2', '3', '4', '5', '6', '7', '8', '9'][(n % 10) as int]]
    }
}

/// Parts separated by commas.
pub open spec fn join_commas(parts: Seq<Seq<char>>) -> Seq<char>
    decreases parts.len(),
{
    if parts.len() == 0 {
        Seq::empty()
    } else if parts.len() == 1 {
        parts[0]
    } else {
        join_commas(parts.drop_last()) + seq![','] + parts.last()
    }
}

/// Parts separated by commas between an opening and a closing mark.
pub open spec fn enclosed(open: char, parts: Seq<Seq<char>>, close: char) -> Seq<char> {
    seq![open] + join_commas(parts) + seq![close]
}

/// A text that holds no comma.
pub open spec fn comma_free(s: Seq<char>) -> bool {
    forall|i: int| 0 <= i < s.len() ==> s[i] != ','
}

/// Relies on the `Display` of substreams' `Hex`: two lowercase digits for each byte.
#[verifier::external_body]
pub(crate) fn hex_string(hash: &Vec<u8>) -> (r: String)
    ensures
        r@ == hex_lower(hash@),
{
    substreams::Hex(hash).to_string()
}

/// Relies on the `Display` of primitive-types' `U256`: decimal digits without leading zeros.
#[verifier::external_body]
pub(crate) fn u256_decimal(x: U256) -> (r: String)
    ensures
        r@ == decimal(x.value()),
{
    ethabi::ethereum_types::U256(x.limbs).to_string()
}

/// The decimal text of a machine integer.
pub fn u64_text(x: u64) -> (r: String)
    ensures
        r@ == decimal(x as nat),
{
    u256_decimal(U256::from_u64(x))
}

/// A value that can be written into one column of a table change.
pub trait TableField {
    /// The text written into the column.
    spec fn encoding(&self) -> Seq<char>;

    fn get_value(&self) -> (r: String)
        ensures
            r@ == self.encoding(),
    ;
}

impl TableField for Vec<u8> {
    open spec fn encoding(&self) -> Seq<char> {
        hex_lower(self@)
    }

    fn get_value(&self) -> (r: String) {
        hex_string(self)
    }
}

impl TableField for U256 {
    open spec fn encoding(&self) -> Seq<char> {
        decimal(self.value())
    }

    fn get_value(&self) -> (r: String) {
        u256_decimal(*self)
    }
}

impl TableField for bool {
    open spec fn encoding(&self) -> Seq<char> {
        if *self {
            seq!['t', 'r', 'u', 'e']
        } else {
            seq!['f', 'a', 'l', 's', 'e']
        }
    }

    fn get_value(&self) -> (r: String) {
        if *self {
            let r = String::from_str("true");
            proof {
                reveal_strlit("true");
            }
            r
        } else {
            let r = String::from_str("false");
            proof {
                reveal_strlit("false");
            }
            r
        }
    }
}

impl TableField for String {
    open spec fn encoding(&self) -> Seq<char> {
        self@
    }

    fn get_value(&self) -> (r: String) {
        self.clone()
    }
}

/// Appends `part` to `acc`, preceded by a comma unless it is the first part.
fn push_part(acc: &mut String, first: bool, part: &str)
    ensures
        final(acc)@ == if first {
            old(acc)@ + part@
        } else {
            old(acc)@ + seq![','] + part@
        },
{
    if !first {
        acc.append(",");
        proof {
            reveal_strlit(",");
        }
    }
    acc.append(part);
}

/// A string holding one character, given as a literal.
fn mark(open: bool, bracket: bool) -> (r: &'static str)
    ensures
        r@ == seq![
            if bracket {
                if open {
                    '['
                } else {
                    ']'
                }
            } else if open {
                '('
            } else {
                ')'
            },
        ],
{
    if bracket {
        if open {
            proof {
                reveal_strlit("[");
            }
            "["
        } else {
            proof {
                reveal_strlit("]");
            }
            "]"
        }
    } else if open {
        proof {
            reveal_strlit("(");
        }
        "("
    } else {
        proof {
            reveal_strlit(")");
        }
        ")"
    }
}

/// Joins already encoded parts between brackets (`[..]`) or parentheses (`(..)`).
pub fn enclose_parts(parts: &Vec<String>, bracket: bool) -> (r: String)
    ensures
        r@ == enclosed(
            if bracket {
                '['
            } else {
                '('
            },
            parts@.map_values(|p: String| p@),
            if bracket {
                ']'
            } else {
                ')'
            },
        ),
{
    let ghost views = parts@.map_values(|p: String| p@);
    let mut r = String::from_str(mark(true, bracket));
    let mut i: usize = 0;
    while i < parts.len()
        invariant
            i <= parts.len(),
            views == parts@.map_values(|p: String| p@),
            r@ == seq![
                if bracket {
                    '['
                } else {
                    '('
                },
            ] + join_commas(views.subrange(0, i as int)),
        decreases parts.len() - i,
    {
        push_part(&mut r, i == 0, parts[i].as_str());
        proof {
            let next = views.subrange(0, i + 1);
            assert(next.drop_last() =~= views.subrange(0, i as int));
            if i == 0 {
                assert(views.subrange(0, 0) =~= Seq::<Seq<char>>::empty());
            }
        }
        i = i + 1;
    }
    r.append(mark(false, bracket));
    proof {
        assert(views.subrange(0, parts.len() as int) =~= views);
    }
    r
}

impl<T: TableField> TableField for Vec<T> {
    open spec fn encoding(&self) -> Seq<char> {
        enclosed('[', self@.map_values(|x: T| x.encoding()), ']')
    }

    fn get_value(&self) -> (r: String) {
        let mut parts: Vec<String> = Vec::new();
        let mut i: usize = 0;
        while i < self.len()
            invariant
                i <= self.len(),
                parts@.len() == i,
                forall|j: int| 0 <= j < i ==> #[trigger] parts@[j]@ == self@[j].encoding(),
            decreases self.len() - i,
        {
            parts.push(self[i].get_value());
            i = i + 1;
        }
        let r = enclose_parts(&parts, true);
        proof {
            assert(parts@.map_values(|p: String| p@) =~= self@.map_values(|x: T| x.encoding()));
        }
        r
    }
}

impl<T1: TableField, T2: TableField> TableField for (T1, T2) {
    open spec fn encoding(&self) -> Seq<char> {
        enclosed('(', seq![self.0.encoding(), self.1.encoding()], ')')
    }

    fn get_value(&self) -> (r: String) {
        let parts = vec![self.0.get_value(), self.1.get_value()];
        let r = enclose_parts(&parts, false);
        proof {
            assert(parts@.map_values(|p: String| p@) =~= seq![self.0.encoding(), self.1.encoding()]);
        }
        r
    }
}

impl<T1: TableField, T2: TableField, T3: TableField> TableField for (T1, T2, T3) {
    open spec fn encoding(&self) -> Seq<char> {
        enclosed('(', seq![self.0.encoding(), self.1.encoding(), self.2.encoding()], ')')
    }

    fn get_value(&self) -> (r: String) {
        let parts = vec![self.0.get_value(), self.1.get_value(), self.2.get_value()];
        let r = enclose_parts(&parts, false);
        proof {
            assert(parts@.map_values(|p: String| p@) =~= seq![
                self.0.encoding(),
                self.1.encoding(),
                self.2.encoding(),
            ]);
        }
        r
    }
}

impl<T1: TableField, T2: TableField, T3: TableField, T4: TableField> TableField for (
    T1,
    T2,
    T3,
    T4,
) {
    open spec fn encoding(&self) -> Seq<char> {
        enclosed(
            '(',
            seq![self.0.encoding(), self.1.encoding(), self.2.encoding(), self.3.encoding()],
            ')',
        )
    }

    fn get_value(&self) -> (r: String) {
        let parts = vec![
            self.0.get_value(),
            self.1.get_value(),
            self.2.get_value(),
            self.3.get_value(),
        ];
        let r = enclose_parts(&parts, false);
        proof {
            assert(parts@.map_values(|p: String| p@) =~= seq![
                self.0.encoding(),
                self.1.encoding(),
                self.2.encoding(),
                self.3.encoding(),
            ]);
        }
        r
    }
}

impl<
    T1: TableField,
    T2: TableField,
    T3: TableField,
    T4: TableField,
    T5: TableField,
> TableField for (T1, T2, T3, T4, T5) {
    open spec fn encoding(&self) -> Seq<char> {
        enclosed(
            '(',
            seq![
                self.0.encoding(),
                self.1.encoding(),
                self.2.encoding(),
                self.3.encoding(),
                self.4.encoding(),
            ],
            ')',
        )
    }

    fn get_value(&self) -> (r: String) {
        let parts = vec![
            self.0.get_value(),
            self.1.get_value(),
            self.2.get_value(),
            self.3.get_value(),
            self.4.get_value(),
        ];
        let r = enclose_parts(&parts, false);
        proof {
            assert(parts@.map_values(|p: String| p@) =~= seq![
                self.0.encoding(),
                self.1.encoding(),
                self.2.encoding(),
                self.3.encoding(),
                self.4.encoding(),
            ]);
        }
        r
    }
}

/// Two texts that end with a comma-free part after a comma split at that comma.
proof fn lemma_split_last_comma(x1: Seq<char>, y1: Seq<char>, x2: Seq<char>, y2: Seq<char>)
    requires
        comma_free(y1),
        comma_free(y2),
        x1 + seq![','] + y1 == x2 + seq![','] + y2,
    ensures
        x1 == x2,
        y1 == y2,
{
    let s = x1 + seq![','] + y1;
    let t = x2 + seq![','] + y2;
    assert(s[x1.len() as int] == ',');
    assert(t[x2.len() as int] == ',');
    assert(s.len() == x1.len() + 1 + y1.len());
    assert(t.len() == x2.len() + 1 + y2.len());
    assert(s.len() == t.len());
    if y1.len() < y2.len() {
        let k = y2.len() - y1.len() - 1;
        assert(t[x2.len() + 1 + k] == y2[k]);
        assert(x2.len() + 1 + k == x1.len());
        assert(false);
    } else if y2.len() < y1.len() {
        let k = y1.len() - y2.len() - 1;
        assert(s[x1.len() + 1 + k] == y1[k]);
        assert(x1.len() + 1 + k == x2.len());
        assert(false);
    }
    assert(y1 =~= s.subrange(x1.len() + 1 as int, s.len() as int));
    assert(y2 =~= t.subrange(x2.len() + 1 as int, t.len() as int));
    assert(x1 =~= s.subrange(0, x1.len() as int));
    assert(x2 =~= t.subrange(0, x2.len() as int));
}

/// Joining the same number of comma-free parts is injective.
pub proof fn lemma_join_commas_injective(a: Seq<Seq<char>>, b: Seq<Seq<char>>)
    requires
        a.len() == b.len(),
        forall|i: int| 0 <= i < a.len() ==> comma_free(#[trigger] a[i]),
        forall|i: int| 0 <= i < b.len() ==> comma_free(#[trigger] b[i]),
        join_commas(a) == join_commas(b),
    ensures
        a == b,
    decreases a.len(),
{
    if a.len() == 1 {
        assert(a =~= b);
    } else if a.len() >= 2 {
        lemma_split_last_comma(join_commas(a.drop_last()), a.last(), join_commas(b.drop_last()), b.last());
        lemma_join_commas_injective(a.drop_last(), b.drop_last());
        assert(a =~= a.drop_last().push(a.last()));
        assert(b =~= b.drop_last().push(b.last()));
    } else {
        assert(a =~= b);
    }
}

/// Enclosing the same number of comma-free parts between the same marks is injective.
pub proof fn lemma_enclosed_injective(open: char, a: Seq<Seq<char>>, b: Seq<Seq<char>>, close: char)
    requires
        a.len() == b.len(),
        forall|i: int| 0 <= i < a.len() ==> comma_free(#[trigger] a[i]),
        forall|i: int| 0 <= i < b.len() ==> comma_free(#[trigger] b[i]),
        enclosed(open, a, close) == enclosed(open, b, close),
    ensures
        a == b,
{
    let s = enclosed(open, a, close);
    assert(join_commas(a) =~= s.subrange(1, s.len() - 1));
    assert(join_commas(b) =~= s.subrange(1, s.len() - 1));
    lemma_join_commas_injective(a, b);
}

/// The value of a lowercase hexadecimal digit.
pub open spec fn hex_value(c: char) -> int {
    if '0' <= c && c <= '9' {
        c as int - '0' as int
    } else {
        c as int - 'a' as int + 10
    }
}

proof fn lemma_hex_digits_inverse(i: int)
    requires
        0 <= i < 16,
    ensures
        hex_value(hex_digits()[i]) == i,
        hex_digits()[i] != ',',
{
    assert(hex_digits()[0] == '0' && hex_digits()[1] == '1' && hex_digits()[2] == '2' && hex_digits()[3]
        == '3' && hex_digits()[4] == '4' && hex_digits()[5] == '5' && hex_digits()[6] == '6'
        && hex_digits()[7] == '7' && hex_digits()[8] == '8' && hex_digits()[9] == '9'
        && hex_digits()[10] == 'a' && hex_digits()[11] == 'b' && hex_digits()[12] == 'c'
        && hex_digits()[13] == 'd' && hex_digits()[14] == 'e' && hex_digits()[15] == 'f');
}

/// Hexadecimal text has two digits per byte and no comma.
pub proof fn lemma_hex_shape(b: Seq<u8>)
    ensures
        hex_lower(b).len() == 2 * b.len(),
        comma_free(hex_lower(b)),
    decreases b.len(),
{
    if b.len() > 0 {
        lemma_hex_shape(b.drop_last());
        let last = b.last() as int;
        lemma_hex_digits_inverse(last / 16);
        lemma_hex_digits_inverse(last % 16);
        let h = hex_lower(b);
        let p = hex_lower(b.drop_last());
        assert forall|i: int| 0 <= i < h.len() implies h[i] != ',' by {
            if i < p.len() {
                assert(h[i] == p[i]);
            }
        }
    }
}

/// Distinct byte strings have distinct hexadecimal texts.
pub proof fn lemma_hex_injective(a: Seq<u8>, b: Seq<u8>)
    requires
        hex_lower(a) == hex_lower(b),
    ensures
        a == b,
    decreases a.len(),
{
    lemma_hex_shape(a);
    lemma_hex_shape(b);
    if a.len() > 0 {
        let (x, y) = (a.last() as int, b.last() as int);
        let (ha, hb) = (hex_lower(a), hex_lower(b));
        let n = ha.len() as int;
        lemma_hex_shape(a.drop_last());
        lemma_hex_shape(b.drop_last());
        assert(ha[n - 2] == hex_digits()[x / 16] && ha[n - 1] == hex_digits()[x % 16]);
        assert(hb[n - 2] == hex_digits()[y / 16] && hb[n - 1] == hex_digits()[y % 16]);
        lemma_hex_digits_inverse(x / 16);
        lemma_hex_digits_inverse(x % 16);
        lemma_hex_digits_inverse(y / 16);
        lemma_hex_digits_inverse(y % 16);
        assert(x == y);
        assert(hex_lower(a.drop_last()) =~= ha.subrange(0, n - 2));
        assert(hex_lower(b.drop_last()) =~= hb.subrange(0, n - 2));
        lemma_hex_injective(a.drop_last(), b.drop_last());
        assert(a =~= a.drop_last().push(a.last()));
        assert(b =~= b.drop_last().push(b.last()));
    } else {
        assert(b.len() == 0);
        assert(a =~= b);
    }
}

/// Byte strings encode injectively, without commas.
pub proof fn lemma_bytes_encoding(a: Vec<u8>, b: Vec<u8>)
    ensures
        comma_free(a.encoding()),
        a.encoding() == b.encoding() ==> a@ == b@,
{
    lemma_hex_shape(a@);
    if a.encoding() == b.encoding() {
        lemma_hex_injective(a@, b@);
    }
}

/// The decimal digits.
pub open spec fn decimal_digits() -> Seq<char> {
    seq!['0', '1', '2', '3', '4', '5', '6', '7', '8', '9']
}

proof fn lemma_decimal_digits(i: int, j: int)
    requires
        0 <= i < 10,
        0 <= j < 10,
    ensures
        decimal_digits()[i] != ',',
        decimal_digits()[i] == decimal_digits()[j] ==> i == j,
{
    assert(decimal_digits()[0] == '0' && decimal_digits()[1] == '1' && decimal_digits()[2] == '2'
        && decimal_digits()[3] == '3' && decimal_digits()[4] == '4' && decimal_digits()[5] == '5'
        && decimal_digits()[6] == '6' && decimal_digits()[7] == '7' && decimal_digits()[8] == '8'
        && decimal_digits()[9] == '9');
}

/// Decimal text is nonempty, has no comma, and has one digit exactly for numbers below ten.
pub proof fn lemma_decimal_shape(n: nat)
    ensures
        decimal(n).len() >= 1,
        comma_free(decimal(n)),
        (decimal(n).len() == 1) == (n < 10),
    decreases n,
{
    assert(decimal_digits() == seq!['0', '1', '2', '3', '4', '5', '6', '7', '8', '9']);
    if n < 10 {
        lemma_decimal_digits(n as int, 0);
    } else {
        lemma_decimal_shape(n / 10);
        lemma_decimal_digits((n % 10) as int, 0);
        let d = decimal(n);
        let p = decimal(n / 10);
        assert forall|i: int| 0 <= i < d.len() implies d[i] != ',' by {
            if i < p.len() {
                assert(d[i] == p[i]);
            }
        }
    }
}

/// Distinct numbers have distinct decimal texts.
pub proof fn lemma_decimal_injective(n: nat, m: nat)
    requires
        decimal(n) == decimal(m),
    ensures
        n == m,
    decreases n,
{
    assert(decimal_digits() == seq!['0', '1', '2', '3', '4', '5', '6', '7', '8', '9']);
    lemma_decimal_shape(n);
    lemma_decimal_shape(m);
    if n < 10 {
        assert(m < 10);
        assert(decimal(n)[0] == decimal_digits()[n as int]);
        assert(decimal(m)[0] == decimal_digits()[m as int]);
        lemma_decimal_digits(n as int, m as int);
    } else {
        assert(m >= 10);
        let (dn, dm) = (decimal(n), decimal(m));
        let k = dn.len() - 1;
        assert(dn[k] == decimal_digits()[(n % 10) as int]);
        assert(dm[k] == decimal_digits()[(m % 10) as int]);
        lemma_decimal_digits((n % 10) as int, (m % 10) as int);
        assert(decimal(n / 10) =~= dn.subrange(0, k));
        assert(decimal(m / 10) =~= dm.subrange(0, k));
        lemma_decimal_injective(n / 10, m / 10);
        vstd::arithmetic::div_mod::lemma_fundamental_div_mod(n as int, 10);
        vstd::arithmetic::div_mod::lemma_fundamental_div_mod(m as int, 10);
    }
}

/// Integers encode injectively, without commas.
pub proof fn lemma_integer_encoding(a: U256, b: U256)
    ensures
        comma_free(a.encoding()),
        a.encoding() == b.encoding() ==> a.value() == b.value(),
{
    lemma_decimal_shape(a.value());
    if a.encoding() == b.encoding() {
        lemma_decimal_injective(a.value(), b.value());
    }
}

/// Booleans encode injectively, without commas.
pub proof fn lemma_bool_encoding(a: bool, b: bool)
    ensures
        comma_free(a.encoding()),
        a.encoding() == b.encoding() ==> a == b,
{
    if a != b {
        assert(a.encoding().len() != b.encoding().len());
    }
}

/// Arrays of the same length whose elements encode injectively and without commas encode
/// injectively: distinct arrays have distinct texts.
pub proof fn lemma_array_encoding_injective<T: TableField>(a: Vec<T>, b: Vec<T>)
    requires
        a@.len() == b@.len(),
        forall|x: T, y: T| #[trigger] x.encoding() == #[trigger] y.encoding() ==> x == y,
        forall|i: int| 0 <= i < a@.len() ==> comma_free((#[trigger] a@[i]).encoding()),
        forall|i: int| 0 <= i < b@.len() ==> comma_free((#[trigger] b@[i]).encoding()),
        a.encoding() == b.encoding(),
    ensures
        a@ == b@,
{
    let ea = a@.map_values(|x: T| x.encoding());
    let eb = b@.map_values(|x: T| x.encoding());
    assert forall|i: int| 0 <= i < ea.len() implies comma_free(#[trigger] ea[i]) by {
        assert(ea[i] == a@[i].encoding());
    }
    assert forall|i: int| 0 <= i < eb.len() implies comma_free(#[trigger] eb[i]) by {
        assert(eb[i] == b@[i].encoding());
    }
    lemma_enclosed_injective('[', ea, eb, ']');
    assert forall|i: int| 0 <= i < a@.len() implies a@[i] == b@[i] by {
        assert(ea[i] == eb[i]);
        assert(a@[i].encoding() == b@[i].encoding());
    }
    assert(a@ =~= b@);
}

/// Pairs whose members encode injectively and without commas encode injectively.
pub proof fn lemma_pair_encoding_injective<T1: TableField, T2: TableField>(a: (T1, T2), b: (T1, T2))
    requires
        forall|x: T1, y: T1| #[trigger] x.encoding() == #[trigger] y.encoding() ==> x == y,
        forall|x: T2, y: T2| #[trigger] x.encoding() == #[trigger] y.encoding() ==> x == y,
        comma_free(a.0.encoding()) && comma_free(a.1.encoding()),
        comma_free(b.0.encoding()) && comma_free(b.1.encoding()),
        a.encoding() == b.encoding(),
    ensures
        a == b,
{
    let ea = seq![a.0.encoding(), a.1.encoding()];
    let eb = seq![b.0.encoding(), b.1.encoding()];
    assert forall|i: int| 0 <= i < 2 implies comma_free(#[trigger] ea[i]) && comma_free(eb[i]) by {}
    lemma_enclosed_injective('(', ea, eb, ')');
    assert(ea[0] == eb[0] && ea[1] == eb[1]);
}

/// Triples whose members encode injectively and without commas encode injectively.
pub proof fn lemma_triple_encoding_injective<T1: TableField, T2: TableField, T3: TableField>(
    a: (T1, T2, T3),
    b: (T1, T2, T3),
)
    requires
        forall|x: T1, y: T1| #[trigger] x.encoding() == #[trigger] y.encoding() ==> x == y,
        forall|x: T2, y: T2| #[trigger] x.encoding() == #[trigger] y.encoding() ==> x == y,
        forall|x: T3, y: T3| #[trigger] x.encoding() == #[trigger] y.encoding() ==> x == y,
        comma_free(a.0.encoding()) && comma_free(a.1.encoding()) && comma_free(a.2.encoding()),
        comma_free(b.0.encoding()) && comma_free(b.1.encoding()) && comma_free(b.2.encoding()),
        a.encoding() == b.encoding(),
    ensures
        a == b,
{
    let ea = seq![a.0.encoding(), a.1.encoding(), a.2.encoding()];
    let eb = seq![b.0.encoding(), b.1.encoding(), b.2.encoding()];
    assert forall|i: int| 0 <= i < 3 implies comma_free(#[trigger] ea[i]) && comma_free(eb[i]) by {}
    lemma_enclosed_injective('(', ea, eb, ')');
    assert(ea[0] == eb[0] && ea[1] == eb[1] && ea[2] == eb[2]);
}

} // verus!
