use vstd::prelude::*;

verus! {

/// Bound on the sum of the absolute values of a kernel's weights. Within
/// it a weighted sum of channel values fits in 128 bits.
pub const MASS_LIMIT: i128 = 0x10_0000_0000_0000_0000_0000_0000;

/// The absolute value of a weight.
pub open spec fn abs_weight(w: i64) -> int {
    if w < 0 {
        -(w as int)
    } else {
        w as int
    }
}

/// The sum of the absolute values of the weights.
pub open spec fn mass(weights: Seq<i64>) -> int
    decreases weights.len(),
{
    if weights.len() == 0 {
        0
    } else {
        mass(weights.drop_last()) + abs_weight(weights.last())
    }
}

/// `n` is the square of an odd number.
pub open spec fn is_odd_square(n: int) -> bool {
    exists|r: int| 0 <= r && #[trigger] odd_square(r) == n
}

/// The number of cells of a square window that reaches `r` cells from its
/// centre in each direction.
pub open spec fn odd_square(r: int) -> int {
    (2 * r + 1) * (2 * r + 1)
}

/// What a kernel is, seen from outside: a square window of rational
/// weights with a common divisor. The weight of the cell in row `i` and
/// column `j` is `weights[i * side + j] / divisor`.
pub struct KernelView {
    pub radius: nat,
    pub divisor: int,
    pub weights: Seq<i64>,
}

impl KernelView {
    /// The number of cells along one side of the window.
    pub open spec fn side(self) -> int {
        2 * (self.radius as int) + 1
    }

    /// The horizontal distance of a cell from the centre of the window.
    pub open spec fn offset_x(self, cell: int) -> int {
        cell % self.side() - self.radius
    }

    /// The vertical distance of a cell from the centre of the window.
    pub open spec fn offset_y(self, cell: int) -> int {
        cell / self.side() - self.radius
    }

    /// The position of the cell at the centre of the window.
    pub open spec fn centre(self) -> int {
        (self.radius as int) * self.side() + (self.radius as int)
    }

    /// The divisor is positive, there is a weight for each cell of the
    /// window, and the mass of the weights is within `MASS_LIMIT`.
    pub open spec fn wf(self) -> bool {
        &&& self.divisor > 0
        &&& self.weights.len() == odd_square(self.radius as int)
        &&& mass(self.weights) <= MASS_LIMIT
    }
}

/// A square convolution window with an odd number of cells along each
/// side. Its weights are fractions with one divisor for all of them.
pub struct Kernel {
    weights: Vec<i64>,
    divisor: i64,
    radius: usize,
}

impl View for Kernel {
    type V = KernelView;

    /// Radius, divisor and weights of the kernel.
    closed spec fn view(&self) -> KernelView {
        KernelView {
            radius: self.radius as nat,
            divisor: self.divisor as int,
            weights: self.weights@,
        }
    }
}

/// The weights of a box blur: every cell weighs one.
pub open spec fn blur_weights(radius: nat) -> Seq<i64> {
    Seq::new(odd_square(radius as int) as nat, |i: int| 1i64)
}

/// The weights of the edge filter: every cell weighs one, but for the
/// centre, which weighs minus the number of cells.
pub open spec fn edge_weights(radius: nat) -> Seq<i64> {
    Seq::new(
        odd_square(radius as int) as nat,
        |i: int|
            if i == odd_square(radius as int) / 2 {
                (-odd_square(radius as int)) as i64
            } else {
                1i64
            },
    )
}

/// The kernel of a box blur: every cell weighs one over the number of
/// cells.
pub open spec fn blur_view(radius: nat) -> KernelView {
    KernelView { radius, divisor: odd_square(radius as int), weights: blur_weights(radius) }
}

/// The kernel of the edge filter: every cell weighs one over the side of
/// the window, but for the centre, which weighs minus the side.
pub open spec fn edge_view(radius: nat) -> KernelView {
    KernelView { radius, divisor: 2 * (radius as int) + 1, weights: edge_weights(radius) }
}

/// Whether a window of this radius has few enough cells to be stored.
pub fn radius_fits(size: usize) -> (b: bool)
    ensures
        b == (odd_square(size as int) <= isize::MAX),
{
    if size > 0x8000_0000 {
        proof {
            lemma_odd_square_grows(0x8000_0000, size as int);
            assert(odd_square(0x8000_0000) == 0x1_0000_0001 * 0x1_0000_0001);
        }
        false
    } else {
        odd_square_of(size) <= isize::MAX as u128
    }
}

impl Kernel {
    #[verifier::type_invariant]
    closed spec fn inv(self) -> bool {
        self@.wf()
    }

    /// A kernel from its weights, row after row, and their divisor.
    ///
    /// There is a kernel when the divisor is positive, the number of
    /// weights is the square of an odd number, and their absolute values
    /// sum to no more than `MASS_LIMIT`.
    pub fn new(weights: Vec<i64>, divisor: i64) -> (r: Option<Kernel>)
        ensures
            r is Some <==> divisor > 0 && is_odd_square(weights@.len() as int) && mass(weights@)
                <= MASS_LIMIT,
            r is Some ==> r->0@.weights == weights@ && r->0@.divisor == divisor && r->0@.wf(),
    {
        if divisor <= 0 {
            return None;
        }
        let n = weights.len();
        let mut radius: usize = 0;
        proof {
            lemma_odd_square_grows(0, 0);
        }
        while odd_square_of(radius) < n as u128
            invariant
                radius <= n,
                radius <= 0x8000_0000,
                n == weights.len(),
                forall|r: int| 0 <= r < radius ==> #[trigger] odd_square(r) < n,
            decreases n - radius,
        {
            proof {
                lemma_odd_square_grows(radius as int, radius as int);
                lemma_root_bound(radius as int);
            }
            radius += 1;
        }
        if odd_square_of(radius) != n as u128 {
            proof {
                assert forall|r: int| 0 <= r implies #[trigger] odd_square(r) != n by {
                    if r >= radius {
                        lemma_odd_square_grows(radius as int, r);
                    }
                }
            }
            return None;
        }
        let mut total: i128 = 0;
        let mut i: usize = 0;
        assert(weights@.take(0) =~= Seq::empty());
        while i < n
            invariant
                0 <= i <= n,
                n == weights.len(),
                total == mass(weights@.take(i as int)),
                0 <= total <= MASS_LIMIT,
            decreases n - i,
        {
            let w = weights[i];
            proof {
                let next = weights@.take(i as int + 1);
                assert(next.drop_last() =~= weights@.take(i as int));
                assert(next.last() == w);
            }
            let a: i128 = if w < 0 {
                -(w as i128)
            } else {
                w as i128
            };
            total = total + a;
            if total > MASS_LIMIT {
                proof {
                    lemma_mass_monotone(weights@, i as int + 1);
                }
                return None;
            }
            i += 1;
        }
        assert(weights@.take(n as int) =~= weights@);
        Some(Kernel { weights, divisor, radius })
    }

    /// How many cells the window reaches from its centre in each
    /// direction.
    pub fn radius(&self) -> (r: usize)
        ensures
            r == self@.radius,
            self@.wf(),
    {
        proof {
            use_type_invariant(self);
        }
        self.radius
    }

    /// The common divisor of the weights.
    pub fn divisor(&self) -> (d: i64)
        ensures
            d == self@.divisor,
            d > 0,
    {
        proof {
            use_type_invariant(self);
        }
        self.divisor
    }

    /// The number of cells of the window.
    pub fn len(&self) -> (n: usize)
        ensures
            n == self@.weights.len(),
            n == odd_square(self@.radius as int),
    {
        proof {
            use_type_invariant(self);
        }
        self.weights.len()
    }

    /// The numerator of the weight of a cell.
    pub fn weight(&self, cell: usize) -> (w: i64)
        requires
            cell < self@.weights.len(),
        ensures
            w == self@.weights[cell as int],
    {
        self.weights[cell]
    }
}

/// `(2 * radius + 1)` squared, computed without overflow.
fn odd_square_of(radius: usize) -> (n: u128)
    requires
        radius <= 0x8000_0000,
    ensures
        n == odd_square(radius as int),
{
    let side: u128 = 2 * (radius as u128) + 1;
    assert(side * side <= 0x1_0000_0001 * 0x1_0000_0001) by (nonlinear_arith)
        requires
            0 <= side <= 0x1_0000_0001,
    ;
    side * side
}

/// A window with fewer than `2^64` cells reaches less than `2^31` cells
/// from its centre.
pub proof fn lemma_root_bound(r: int)
    requires
        0 <= r,
        odd_square(r) < 0x1_0000_0000_0000_0000,
    ensures
        r < 0x8000_0000,
{
    if r >= 0x8000_0000 {
        lemma_odd_square_grows(0x8000_0000, r);
        assert(odd_square(0x8000_0000) == 0x1_0000_0001 * 0x1_0000_0001);
    }
}

/// A larger radius gives a larger window.
pub proof fn lemma_odd_square_grows(a: int, b: int)
    requires
        0 <= a <= b,
    ensures
        odd_square(a) <= odd_square(b),
        a < b ==> odd_square(a) < odd_square(b),
        odd_square(a) >= 2 * a + 1,
{
    assert((2 * a + 1) * (2 * a + 1) <= (2 * b + 1) * (2 * b + 1)) by (nonlinear_arith)
        requires
            0 <= a <= b,
    ;
    assert(a < b ==> (2 * a + 1) * (2 * a + 1) < (2 * b + 1) * (2 * b + 1)) by (nonlinear_arith)
        requires
            0 <= a <= b,
    ;
    assert((2 * a + 1) * (2 * a + 1) >= 2 * a + 1) by (nonlinear_arith)
        requires
            0 <= a,
    ;
}

/// The mass of the first weights is no more than that of all of them.
pub proof fn lemma_mass_monotone(weights: Seq<i64>, n: int)
    requires
        0 <= n <= weights.len(),
    ensures
        0 <= mass(weights.take(n)) <= mass(weights),
    decreases weights.len(),
{
    if weights.len() == 0 {
        assert(weights.take(n) =~= weights);
    } else if n == weights.len() {
        assert(weights.take(n) =~= weights);
        lemma_mass_monotone(weights.drop_last(), n - 1);
    } else {
        assert(weights.drop_last().take(n) =~= weights.take(n));
        lemma_mass_monotone(weights.drop_last(), n);
    }
}

} // verus!
