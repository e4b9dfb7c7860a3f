use vstd::prelude::*;

verus! {

/// A simple constant.
pub const TEST_CONSTANT: &'static str = "test constant value";

/// A simple module-level value.
pub const TEST_VARIABLE: &'static str = "test variable value";

/// A simple type alias.
pub type TestType = String;

/// The decimal digit character for `d` (which is below ten).
pub open spec fn digit_char(d: nat) -> char {
    if d == 0 { '0' }
    else if d == 1 { '1' }
    else if d == 2 { '2' }
    else if d == 3 { '3' }
    else if d == 4 { '4' }
    else if d == 5 { '5' }
    else if d == 6 { '6' }
    else if d == 7 { '7' }
    else if d == 8 { '8' }
    else { '9' }
}

/// The decimal digits of `n`, most significant first, without leading zeros.
pub open spec fn nat_digits(n: nat) -> Seq<char>
    decreases n,
{
    if n < 10 {
        seq![digit_char(n)]
    } else {
        nat_digits(n / 10) + seq![digit_char(n % 10)]
    }
}

/// The decimal text of an integer: a minus sign before the digits of a
/// negative value.
pub open spec fn int_text(v: int) -> Seq<char> {
    if v < 0 {
        seq!['-'] + nat_digits((-v) as nat)
    } else {
        nat_digits(v as nat)
    }
}

fn digit_str(d: u64) -> (r: &'static str)
    requires
        d < 10,
    ensures
        r@ == seq![digit_char(d as nat)],
{
    proof {
        reveal_strlit("0");
        reveal_strlit("1");
        reveal_strlit("2");
        reveal_strlit("3");
        reveal_strlit("4");
        reveal_strlit("5");
        reveal_strlit("6");
        reveal_strlit("7");
        reveal_strlit("8");
        reveal_strlit("9");
    }
    if d == 0 { "0" }
    else if d == 1 { "1" }
    else if d == 2 { "2" }
    else if d == 3 { "3" }
    else if d == 4 { "4" }
    else if d == 5 { "5" }
    else if d == 6 { "6" }
    else if d == 7 { "7" }
    else if d == 8 { "8" }
    else { "9" }
}

/// The decimal text of `v`.
pub fn int_to_text(v: i32) -> (r: String)
    ensures
        r@ == int_text(v as int),
{
    let wide: i64 = v as i64;
    let n: u64 = if wide < 0 { (-wide) as u64 } else { wide as u64 };
    let mut m: u64 = n;
    let mut s = String::new();
    if m == 0 {
        s = String::from_str(digit_str(0));
    }
    while m > 0
        invariant
            m > 0 ==> nat_digits(n as nat) == nat_digits(m as nat) + s@,
            m == 0 ==> nat_digits(n as nat) == s@,
        decreases m,
    {
        let d = digit_str(m % 10);
        let head = String::from_str(d);
        proof {
            if m >= 10 {
                assert(nat_digits(m as nat) == nat_digits((m / 10) as nat) + seq![
                    digit_char((m % 10) as nat),
                ]);
                assert(nat_digits(n as nat) == nat_digits((m / 10) as nat) + (head@ + s@));
            } else {
                assert(nat_digits(n as nat) == head@ + s@);
            }
        }
        s = head.concat(s.as_str());
        m = m / 10;
    }
    if wide < 0 {
        proof { reveal_strlit("-"); }
        let sign = String::from_str("-");
        sign.concat(s.as_str())
    } else {
        s
    }
}

/// A struct with a name and a value.
pub struct TestStruct {
    pub name: String,
    pub value: i32,
}

impl TestStruct {
    pub fn new(name: &str, value: i32) -> (r: TestStruct)
        ensures
            r.name@ == name@,
            r.value == value,
    {
        TestStruct { name: String::from_str(name), value }
    }

    /// The name, a colon and a space, then the value in decimal.
    pub fn method(&self) -> (r: String)
        ensures
            r@ == self.name@ + ": "@ + int_text(self.value as int),
    {
        let out = self.name.clone();
        let out = out.concat(": ");
        let digits = int_to_text(self.value);
        out.concat(digits.as_str())
    }
}

/// An interface with a name and a value.
pub trait TestInterface {
    spec fn name_view(&self) -> Seq<char>;

    spec fn value_view(&self) -> i32;

    fn get_name(&self) -> (r: String)
        ensures
            r@ == self.name_view(),
    ;

    fn get_value(&self) -> (r: i32)
        ensures
            r == self.value_view(),
    ;
}

impl TestInterface for TestStruct {
    open spec fn name_view(&self) -> Seq<char> {
        self.name@
    }

    open spec fn value_view(&self) -> i32 {
        self.value
    }

    fn get_name(&self) -> (r: String) {
        self.name.clone()
    }

    fn get_value(&self) -> (r: i32) {
        self.value
    }
}

/// A struct shared between modules.
pub struct SharedStruct {
    pub name: String,
}

impl SharedStruct {
    pub fn new(name: &str) -> (r: SharedStruct)
        ensures
            r.name@ == name@,
    {
        SharedStruct { name: String::from_str(name) }
    }

    /// The text `SharedStruct: ` followed by the name.
    pub fn method(&self) -> (r: String)
        ensures
            r@ == "SharedStruct: "@ + self.name@,
    {
        let out = String::from_str("SharedStruct: ");
        out.concat(self.name.as_str())
    }
}

/// An interface shared between modules.
pub trait SharedInterface {
    spec fn name_view(&self) -> Seq<char>;

    fn get_name(&self) -> (r: String)
        ensures
            r@ == self.name_view(),
    ;
}

impl SharedInterface for SharedStruct {
    open spec fn name_view(&self) -> Seq<char> {
        self.name@
    }

    fn get_name(&self) -> (r: String) {
        self.name.clone()
    }
}

/// A type alias shared between modules.
pub type SharedType = String;

/// A constant shared between modules.
pub const SHARED_CONSTANT: &'static str = "shared constant value";

/// Returns the text `test function`.
pub fn test_function() -> (r: String)
    ensures
        r@ == "test function"@,
{
    String::from_str("test function")
}

} // verus!
