use concrete_quantizer::{Double, Quantizer, Tensor};
use ndarray::{ArrayD, IxDyn, Zip};

fn double(x: f64) -> Double {
    Double::from_bits(x.to_bits())
}

struct Draw(u64);

impl Draw {
    fn next(&mut self) -> u64 {
        self.0 = self.0.wrapping_mul(6364136223846793005).wrapping_add(1442695040888963407);
        self.0 >> 11
    }

    fn below(&mut self, n: u64) -> u64 {
        self.next() % n
    }

    fn value(&mut self) -> f64 {
        match self.below(40) {
            0 => f64::NAN,
            1 => f64::INFINITY,
            2 => f64::NEG_INFINITY,
            3 => 0.0,
            4 => (self.below(2001) as f64 - 1000.0) / 2.0,
            _ => (self.next() as f64 / (1u64 << 53) as f64 - 0.5) * 1000.0,
        }
    }
}

/// The codes as array arithmetic gives them: the affine transform, rounding,
/// and clamping between bounds that are arrays themselves.
fn with_arrays(
    q: &Quantizer,
    values: &ArrayD<f64>,
    zero_point: &ArrayD<f64>,
    offset: &ArrayD<i64>,
) -> ArrayD<i64> {
    let scale = f64::from_bits(q.scale.bits);
    let zero_point = zero_point.broadcast(values.shape()).unwrap();
    let mut codes = (values / scale + &zero_point).mapv(|x| x.round() as i64);
    if q.clamps() {
        let offset = offset.broadcast(values.shape()).unwrap();
        let mut lower =
            if q.is_signed { offset.mapv(|o| -o) } else { ArrayD::zeros(codes.raw_dim()) };
        if q.is_narrow {
            lower += 1;
        }
        let upper = ArrayD::from_elem(codes.raw_dim(), (1i64 << q.n_bits) - 1) - &offset;
        Zip::from(&mut codes).and(&lower).and(&upper).for_each(|x, &lo, &hi| {
            *x = (*x).clamp(lo, hi);
        });
    }
    codes
}

/// The codes as the library gives them, from the affine transform computed
/// element by element.
fn with_the_library(q: &Quantizer, values: &ArrayD<f64>) -> ArrayD<i64> {
    let shape = values.shape().to_vec();
    let scale = f64::from_bits(q.scale.bits);
    let zero_point = q.broadcast_zero_point(&shape).unwrap();
    let affine: Vec<Double> = values
        .iter()
        .zip(zero_point.data.iter())
        .map(|(v, z)| double(v / scale + f64::from_bits(z.bits)))
        .collect();
    let codes = q.quantize(&Tensor::new(shape, affine).unwrap()).unwrap();
    ArrayD::from_shape_vec(IxDyn(&codes.shape), codes.data).unwrap()
}

fn shapes() -> Vec<(Vec<usize>, Vec<usize>, Vec<usize>)> {
    vec![
        (vec![7], vec![1], vec![1]),
        (vec![7], vec![7], vec![1]),
        (vec![7], vec![1], vec![7]),
        (vec![3, 4], vec![1], vec![4]),
        (vec![3, 4], vec![4], vec![3, 1]),
        (vec![3, 4], vec![3, 4], vec![1, 4]),
        (vec![2, 3, 4], vec![3, 1], vec![4]),
        (vec![2, 3, 4], vec![3, 4], vec![1, 1, 1]),
        (vec![2, 1, 5], vec![1, 5], vec![2, 1, 1]),
        (vec![4, 0], vec![1], vec![1]),
    ]
}

#[test]
fn codes_agree_with_array_arithmetic() {
    let mut draw = Draw(0x2545_f491_4f6c_dd1d);
    for (shape, zero_shape, offset_shape) in shapes() {
        for round in 0..40 {
            let n_bits = [1u32, 2, 4, 8, 16, 31, 62][round % 7];
            let top = (1i64 << n_bits) - 1;
            let is_signed = draw.below(2) == 0;
            let is_narrow = draw.below(2) == 0 && n_bits > 1;
            let count: usize = shape.iter().product();
            let zero_count: usize = zero_shape.iter().product();
            let offset_count: usize = offset_shape.iter().product();
            let reach = top.min(1000) as u64;
            let offsets: Vec<i64> = (0..offset_count)
                .map(|_| {
                    if is_signed {
                        draw.below(2001) as i64 - 1000
                    } else {
                        draw.below(reach) as i64
                    }
                })
                .collect();
            let zeros: Vec<f64> =
                (0..zero_count).map(|_| draw.below(257) as f64 - 128.0).collect();
            let values: Vec<f64> = (0..count).map(|_| draw.value()).collect();
            let q = Quantizer {
                n_bits,
                is_signed,
                is_symmetric: false,
                is_qat: draw.below(4) == 0,
                is_narrow,
                is_precomputed_qat: draw.below(2) == 0,
                rmax: double(0.0),
                rmin: double(0.0),
                uvalues: Vec::new(),
                scale: double([0.1, 0.5, 1.0, 0.003, 7.25][round % 5]),
                zero_point: Tensor {
                    shape: zero_shape.clone(),
                    data: zeros.iter().map(|z| double(*z)).collect(),
                },
                offset: Tensor { shape: offset_shape.clone(), data: offsets.clone() },
                no_clipping: draw.below(4) == 0,
            };
            assert!(q.is_valid(), "{:?}", q);
            let values = ArrayD::from_shape_vec(IxDyn(&shape), values).unwrap();
            let zero_point = ArrayD::from_shape_vec(IxDyn(&zero_shape), zeros).unwrap();
            let offset = ArrayD::from_shape_vec(IxDyn(&offset_shape), offsets).unwrap();
            assert_eq!(
                with_the_library(&q, &values),
                with_arrays(&q, &values, &zero_point, &offset),
                "{:?}",
                q
            );
        }
    }
}

#[test]
fn dequantized_values_agree_with_array_arithmetic() {
    let mut draw = Draw(0x9e37_79b9_7f4a_7c15);
    for (shape, zero_shape, _) in shapes() {
        let count: usize = shape.iter().product();
        let zero_count: usize = zero_shape.iter().product();
        let zeros: Vec<f64> = (0..zero_count).map(|_| draw.below(257) as f64 - 128.0).collect();
        let codes: Vec<i64> = (0..count).map(|_| draw.below(1 << 20) as i64 - (1 << 19)).collect();
        let zero_tensor =
            Tensor { shape: zero_shape.clone(), data: zeros.iter().map(|z| double(*z)).collect() };
        let broadcast = zero_tensor.broadcast(&shape).unwrap();
        let ours: Vec<f64> = codes
            .iter()
            .zip(broadcast.data.iter())
            .map(|(c, z)| (*c as f64 - f64::from_bits(z.bits)) * 0.1)
            .collect();
        let codes = ArrayD::from_shape_vec(IxDyn(&shape), codes).unwrap();
        let zero_point = ArrayD::from_shape_vec(IxDyn(&zero_shape), zeros).unwrap();
        let zero_point = zero_point.broadcast(codes.shape()).unwrap();
        let theirs = (&codes.mapv(|q| q as f64) - &zero_point) * 0.1;
        assert_eq!(ours, theirs.iter().copied().collect::<Vec<f64>>());
    }
}
