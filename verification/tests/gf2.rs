use polynomial::algebra::{AdditiveGroup, Canonical, Field, Group, RandomSource};
use polynomial::codec::DecodeError;
use polynomial::dense::DenseMultilinearExtension;
use polynomial::gf2::Gf2;
use polynomial::multilinear::MultilinearExtension;

type Poly = DenseMultilinearExtension<Gf2>;

const O: Gf2 = Gf2(false);
const I: Gf2 = Gf2(true);

/// A source that hands out the bits of a counter, lowest bit first.
struct Counter(u64);

impl RandomSource<Gf2> for Counter {
    fn sample(&mut self) -> Gf2 {
        let bit = self.0 & 1 == 1;
        self.0 = (self.0 >> 1) | ((self.0 & 1) << 63);
        Gf2(bit)
    }
}

fn bits(table: &[u8]) -> Vec<Gf2> {
    table.iter().map(|&b| Gf2(b == 1)).collect()
}

fn poly(num_vars: usize, table: &[u8]) -> Poly {
    assert_eq!(table.len(), 1 << num_vars);
    Poly::from_evaluations_vec(num_vars, bits(table))
}

#[test]
fn gf2_arithmetic_tables() {
    assert_eq!(Gf2::zero(), O);
    assert_eq!(Gf2::one(), I);
    for (a, b, sum, product) in [(O, O, O, O), (O, I, I, O), (I, O, I, O), (I, I, O, I)] {
        assert_eq!(a.add(b), sum);
        assert_eq!(a.sub(b), sum);
        assert_eq!(a.mul(b), product);
        assert_eq!(a.scale(b), product);
        assert_eq!(AdditiveGroup::eq(&a, &b), a == b);
    }
    assert_eq!(O.neg(), O);
    assert_eq!(I.neg(), I);
}

#[test]
fn gf2_encoding_is_one_byte() {
    let mut out = vec![7u8];
    O.encode(&mut out);
    I.encode(&mut out);
    assert_eq!(out, vec![7, 0, 1]);
    assert_eq!(Gf2::decode(&[0, 9]), Some((O, 1)));
    assert_eq!(Gf2::decode(&[1]), Some((I, 1)));
    assert_eq!(Gf2::decode(&[2]), None);
    assert_eq!(Gf2::decode(&[]), None);
}

#[test]
fn gf2_rand_draws_the_table_from_the_source() {
    let p = Poly::rand(3, &mut Counter(0b1011_0010));
    assert_eq!(p.num_vars(), 3);
    assert_eq!(p.to_evaluations(), bits(&[0, 1, 0, 0, 1, 1, 0, 1]));
}

#[test]
fn gf2_relabel_and_fix_variables() {
    // P(x0, x1, x2) = x0 + x1 * x2
    let p = poly(3, &[0, 1, 0, 1, 0, 1, 1, 0]);
    // P(x2, x1, x0) = x2 + x1 * x0
    let q = p.relabel(0, 2, 1);
    assert_eq!(q.to_evaluations(), bits(&[0, 0, 0, 1, 1, 1, 1, 0]));
    assert!(q.relabel(0, 2, 1).eq(&p));
    // P(1, x1, x2) = 1 + x1 * x2
    assert_eq!(p.fix_variables(&[I]).to_evaluations(), bits(&[1, 1, 1, 0]));
    // P(0, 1, x2) = x2
    assert_eq!(p.fix_variables(&[O, I]).to_evaluations(), bits(&[0, 1]));
    for index in 0..8usize {
        let vertex: Vec<Gf2> = (0..3).map(|i| Gf2((index >> i) & 1 == 1)).collect();
        assert_eq!(p.evaluate(&vertex), *p.index(index));
    }
}

#[test]
fn gf2_sum_is_its_own_inverse() {
    let p = poly(2, &[0, 1, 1, 0]);
    let q = poly(2, &[1, 1, 0, 0]);
    let mut sum = p.clone();
    sum.add_assign(&q);
    assert_eq!(sum.to_evaluations(), bits(&[1, 0, 1, 0]));
    sum.sub_assign(&q);
    assert!(sum.eq(&p));
    sum.add_assign_scaled(I, &p);
    assert!(sum.is_zero());
    sum.add_assign_scaled(O, &p);
    assert!(sum.is_zero());
    assert!(p.clone().neg().eq(&p));
}

#[test]
fn gf2_canonical_bytes() {
    let p = poly(2, &[0, 1, 1, 0]);
    let bytes = p.serialize();
    assert_eq!(bytes, vec![4, 0, 0, 0, 0, 0, 0, 0, 0, 1, 1, 0, 2, 0, 0, 0, 0, 0, 0, 0]);
    assert!(Poly::deserialize(&bytes).unwrap().eq(&p));
    let mut invalid = bytes.clone();
    invalid[9] = 2;
    assert_eq!(Poly::deserialize(&invalid).err(), Some(DecodeError::InvalidElement));
    let mut shape = bytes.clone();
    shape[12] = 3;
    assert_eq!(Poly::deserialize(&shape).err(), Some(DecodeError::ShapeMismatch));
    assert_eq!(Poly::deserialize(&bytes[..19]).err(), Some(DecodeError::Truncated));
    let mut long = bytes.clone();
    long.push(0);
    assert_eq!(Poly::deserialize(&long).err(), Some(DecodeError::TrailingBytes));
}
