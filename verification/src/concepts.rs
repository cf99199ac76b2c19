//! First-order building blocks: folds over slices, recursion, expression
//! trees, a builder and optional values.

use vstd::prelude::*;

verus! {

/// Adds two numbers whose sum fits in `i32`.
pub fn pure_add(a: i32, b: i32) -> (sum: i32)
    requires
        i32::MIN <= a + b <= i32::MAX,
    ensures
        sum == a + b,
{
    a + b
}

/// Doubles each element, in order. Every doubled element must fit in `i32`.
pub fn map_example(nums: &[i32]) -> (out: Vec<i32>)
    requires
        forall|i: int| 0 <= i < nums@.len() ==> i32::MIN <= 2 * #[trigger] nums@[i] <= i32::MAX,
    ensures
        out@.len() == nums@.len(),
        forall|i: int| 0 <= i < nums@.len() ==> #[trigger] out@[i] == 2 * nums@[i],
{
    let mut out: Vec<i32> = Vec::new();
    let mut i: usize = 0;
    while i < nums.len()
        invariant
            i <= nums@.len(),
            out@.len() == i,
            forall|k: int| 0 <= k < nums@.len() ==> i32::MIN <= 2 * #[trigger] nums@[k] <= i32::MAX,
            forall|k: int| 0 <= k < i ==> #[trigger] out@[k] == 2 * nums@[k],
        decreases nums@.len() - i,
    {
        out.push(nums[i] * 2);
        i += 1;
    }
    out
}

/// Applies `f` to each element of a slice, in order.
pub fn map_generic<T, U, F>(nums: &[T], f: F) -> (out: Vec<U>) where F: Fn(&T) -> U
    requires
        forall|i: int| 0 <= i < nums@.len() ==> call_requires(f, (&#[trigger] nums@[i],)),
    ensures
        out@.len() == nums@.len(),
        forall|i: int| 0 <= i < nums@.len() ==> call_ensures(f, (&nums@[i],), #[trigger] out@[i]),
{
    let mut out: Vec<U> = Vec::new();
    let mut i: usize = 0;
    while i < nums.len()
        invariant
            i <= nums@.len(),
            out@.len() == i,
            forall|k: int| 0 <= k < nums@.len() ==> call_requires(f, (&#[trigger] nums@[k],)),
            forall|k: int| 0 <= k < i ==> call_ensures(f, (&nums@[k],), #[trigger] out@[k]),
        decreases nums@.len() - i,
    {
        out.push(f(&nums[i]));
        i += 1;
    }
    out
}

/// The sum of the positive elements of `nums`.
pub open spec fn positive_sum(nums: Seq<i32>) -> int
    decreases nums.len(),
{
    if nums.len() == 0 {
        0
    } else {
        positive_sum(nums.drop_last()) + if nums.last() > 0 {
            nums.last() as int
        } else {
            0
        }
    }
}

/// The sum of positive elements never shrinks as the sequence grows.
pub proof fn positive_sum_monotone(nums: Seq<i32>, k: int)
    requires
        0 <= k <= nums.len(),
    ensures
        0 <= positive_sum(nums.take(k)) <= positive_sum(nums),
    decreases nums.len() - k,
{
    if k == nums.len() {
        assert(nums.take(k) =~= nums);
        positive_sum_nonnegative(nums);
    } else {
        assert(nums.take(k + 1).drop_last() =~= nums.take(k));
        positive_sum_nonnegative(nums.take(k));
        positive_sum_monotone(nums, k + 1);
    }
}

/// The sum of positive elements is never negative.
pub proof fn positive_sum_nonnegative(nums: Seq<i32>)
    ensures
        0 <= positive_sum(nums),
    decreases nums.len(),
{
    if nums.len() > 0 {
        positive_sum_nonnegative(nums.drop_last());
    }
}

/// Adds up the positive elements. Their sum must fit in `i32`.
pub fn sum_positive(nums: &[i32]) -> (total: i32)
    requires
        positive_sum(nums@) <= i32::MAX,
    ensures
        total == positive_sum(nums@),
{
    let mut total: i32 = 0;
    let mut i: usize = 0;
    while i < nums.len()
        invariant
            i <= nums@.len(),
            total == positive_sum(nums@.take(i as int)),
            positive_sum(nums@) <= i32::MAX,
        decreases nums@.len() - i,
    {
        proof {
            assert(nums@.take(i + 1).drop_last() =~= nums@.take(i as int));
            positive_sum_monotone(nums@, i + 1);
        }
        if nums[i] > 0 {
            total = total + nums[i];
        }
        i += 1;
    }
    proof {
        assert(nums@.take(i as int) =~= nums@);
    }
    total
}

/// The squares of the positive elements of `nums`, in order.
pub open spec fn positive_squares(nums: Seq<i32>) -> Seq<int>
    decreases nums.len(),
{
    if nums.len() == 0 {
        Seq::empty()
    } else if nums.last() > 0 {
        positive_squares(nums.drop_last()).push(nums.last() * nums.last())
    } else {
        positive_squares(nums.drop_last())
    }
}

/// Squares the positive elements and drops the others. Each such square
/// must fit in `i32`.
pub fn squares_of_positive(nums: &[i32]) -> (out: Vec<i32>)
    requires
        forall|i: int|
            0 <= i < nums@.len() && nums@[i] > 0 ==> #[trigger] nums@[i] * nums@[i] <= i32::MAX,
    ensures
        out@.map_values(|v: i32| v as int) == positive_squares(nums@),
{
    let mut out: Vec<i32> = Vec::new();
    let mut i: usize = 0;
    while i < nums.len()
        invariant
            i <= nums@.len(),
            out@.map_values(|v: i32| v as int) == positive_squares(nums@.take(i as int)),
            forall|k: int|
                0 <= k < nums@.len() && nums@[k] > 0 ==> #[trigger] nums@[k] * nums@[k]
                    <= i32::MAX,
        decreases nums@.len() - i,
    {
        let x: i32 = nums[i];
        proof {
            assert(nums@.take(i + 1).drop_last() =~= nums@.take(i as int));
            assert(nums@.take(i + 1).last() == x);
        }
        if x > 0 {
            assert(0 <= x * x <= i32::MAX) by (nonlinear_arith)
                requires
                    x > 0,
                    x * x <= i32::MAX,
            ;
            let ghost before = out@;
            out.push(x * x);
            proof {
                assert(out@.map_values(|v: i32| v as int) =~= before.map_values(
                    |v: i32| v as int,
                ).push(x * x));
            }
        }
        i += 1;
    }
    proof {
        assert(nums@.take(i as int) =~= nums@);
    }
    out
}

/// The factorial of `n` as a mathematical integer.
pub open spec fn factorial_of(n: nat) -> nat
    decreases n,
{
    if n == 0 {
        1
    } else {
        n * factorial_of((n - 1) as nat)
    }
}

/// The factorial grows with its argument.
pub proof fn factorial_monotone(n: nat)
    ensures
        n > 0 ==> factorial_of((n - 1) as nat) <= factorial_of(n),
        factorial_of(n) >= 1,
    decreases n,
{
    if n > 0 {
        factorial_monotone((n - 1) as nat);
        let p = factorial_of((n - 1) as nat);
        assert(p <= n * p) by (nonlinear_arith)
            requires
                n >= 1,
                p >= 1,
        ;
    }
}

/// Computes `n!` by recursion. The result must fit in `u64`.
pub fn factorial(n: u64) -> (f: u64)
    requires
        factorial_of(n as nat) <= u64::MAX,
    ensures
        f == factorial_of(n as nat),
    decreases n,
{
    if n == 0 {
        1
    } else {
        proof {
            factorial_monotone(n as nat);
        }
        n * factorial(n - 1)
    }
}

/// An arithmetic expression: a constant or the sum of two expressions.
#[derive(Debug)]
pub enum Expr {
    Const(i32),
    Add(Box<Expr>, Box<Expr>),
}

impl Expr {
    /// The value of the expression as a mathematical integer.
    pub open spec fn value(&self) -> int
        decreases self,
    {
        match self {
            Expr::Const(n) => *n as int,
            Expr::Add(a, b) => a.value() + b.value(),
        }
    }

    /// Every sum inside the expression fits in `i32`.
    pub open spec fn in_range(&self) -> bool
        decreases self,
    {
        match self {
            Expr::Const(_) => true,
            Expr::Add(a, b) => a.in_range() && b.in_range() && i32::MIN <= a.value() + b.value()
                <= i32::MAX,
        }
    }
}

/// Evaluates an expression whose sums all fit in `i32`.
pub fn eval(expr: &Expr) -> (v: i32)
    requires
        expr.in_range(),
    ensures
        v == expr.value(),
    decreases expr,
{
    match expr {
        Expr::Const(n) => *n,
        Expr::Add(a, b) => eval(a) + eval(b),
    }
}

/// Where a service listens.
#[derive(Debug)]
pub struct Config {
    pub host: String,
    pub port: u16,
}

impl Config {
    /// Starts a builder with neither host nor port chosen.
    pub fn builder() -> (b: ConfigBuilder)
        ensures
            b.chosen_host() is None,
            b.chosen_port() is None,
    {
        ConfigBuilder { host: None, port: None }
    }
}

/// Collects the parts of a `Config`; parts left out take their default.
pub struct ConfigBuilder {
    host: Option<String>,
    port: Option<u16>,
}

impl ConfigBuilder {
    /// The host chosen so far, if any.
    pub closed spec fn chosen_host(&self) -> Option<Seq<char>> {
        match self.host {
            Some(h) => Some(h@),
            None => None,
        }
    }

    /// The port chosen so far, if any.
    pub closed spec fn chosen_port(&self) -> Option<u16> {
        self.port
    }

    /// Chooses the host; the port is kept.
    pub fn host(self, host: &str) -> (b: Self)
        ensures
            b.chosen_host() == Some(host@),
            b.chosen_port() == self.chosen_port(),
    {
        let mut b = self;
        b.host = Some(host.to_owned());
        b
    }

    /// Chooses the port; the host is kept.
    pub fn port(self, port: u16) -> (b: Self)
        ensures
            b.chosen_port() == Some(port),
            b.chosen_host() == self.chosen_host(),
    {
        let mut b = self;
        b.port = Some(port);
        b
    }

    /// Builds the configuration: host `127.0.0.1` and port 80 unless chosen.
    pub fn build(self) -> (c: Config)
        ensures
            c.host@ == match self.chosen_host() {
                Some(h) => h,
                None => "127.0.0.1"@,
            },
            c.port == match self.chosen_port() {
                Some(p) => p,
                None => 80u16,
            },
    {
        let host = match self.host {
            Some(h) => h,
            None => "127.0.0.1".to_owned(),
        };
        let port: u16 = match self.port {
            Some(p) => p,
            None => 80,
        };
        Config { host, port }
    }
}

/// A person, who always has a non-empty name.
#[derive(Debug)]
pub struct Human {
    name: String,
}

impl Human {
    /// The person's name as a sequence of characters.
    pub closed spec fn spec_name(&self) -> Seq<char> {
        self.name@
    }

    /// The person's name.
    pub fn name(&self) -> (n: &str)
        ensures
            n@ == self.spec_name(),
    {
        self.name.as_str()
    }
}

/// Creates a `Human` with the given name, unless the name is empty.
pub fn get_human(name: &str) -> (h: Option<Human>)
    ensures
        name@.len() == 0 ==> h is None,
        name@.len() > 0 ==> h is Some && h->0.spec_name() == name@,
{
    if name.is_empty() {
        None
    } else {
        Some(Human { name: name.to_owned() })
    }
}

} // verus!
