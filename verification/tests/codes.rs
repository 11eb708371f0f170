use concrete_quantizer::{Double, Quantizer, Tensor};

fn double(x: f64) -> Double {
    Double::from_bits(x.to_bits())
}

fn doubles(xs: &[f64]) -> Vec<Double> {
    xs.iter().map(|x| double(*x)).collect()
}

fn quantizer() -> Quantizer {
    Quantizer {
        n_bits: 8,
        is_signed: false,
        is_symmetric: false,
        is_qat: false,
        is_narrow: false,
        is_precomputed_qat: false,
        rmax: double(0.0),
        rmin: double(0.0),
        uvalues: Vec::new(),
        scale: double(0.1),
        zero_point: Tensor { shape: vec![1], data: vec![double(0.0)] },
        offset: Tensor { shape: vec![1], data: vec![0] },
        no_clipping: false,
    }
}

/// `values / scale + zero_point`, the zero point broadcast by the library.
fn affine(q: &Quantizer, shape: &[usize], values: &[f64]) -> Tensor<Double> {
    let scale = f64::from_bits(q.scale.bits);
    let zero_point = q.broadcast_zero_point(shape).unwrap();
    let data = values
        .iter()
        .zip(zero_point.data.iter())
        .map(|(v, z)| double(v / scale + f64::from_bits(z.bits)))
        .collect();
    Tensor::new(shape.to_vec(), data).unwrap()
}

fn quantize(q: &Quantizer, shape: &[usize], values: &[f64]) -> Vec<i64> {
    assert!(q.is_valid());
    let codes = q.quantize(&affine(q, shape, values)).unwrap();
    assert_eq!(codes.shape, shape);
    codes.data
}

/// `(codes - zero_point) * scale`, the zero point broadcast by the library.
fn dequantize(q: &Quantizer, shape: &[usize], codes: &[i64]) -> Vec<f64> {
    let scale = f64::from_bits(q.scale.bits);
    let zero_point = q.broadcast_zero_point(shape).unwrap();
    codes
        .iter()
        .zip(zero_point.data.iter())
        .map(|(c, z)| (*c as f64 - f64::from_bits(z.bits)) * scale)
        .collect()
}

#[test]
fn unsigned_codes_are_clamped_to_the_grid() {
    let q = quantizer();
    let codes = quantize(&q, &[3], &[-1.0, 0.0, 1.0]);
    assert_eq!(codes, vec![0, 0, 10]);
    let back = dequantize(&q, &[3], &codes);
    assert_eq!(back, vec![0.0, 0.0, 1.0]);
}

#[test]
fn unclamped_codes_keep_their_sign() {
    let mut q = quantizer();
    q.no_clipping = true;
    assert_eq!(quantize(&q, &[1], &[-1.0]), vec![-10]);
    assert_eq!(quantize(&q, &[2], &[100.0, -100.0]), vec![1000, -1000]);
}

#[test]
fn codes_above_the_grid_are_clamped() {
    let q = quantizer();
    assert_eq!(quantize(&q, &[4], &[25.4, 25.5, 25.6, 1e6]), vec![254, 255, 255, 255]);
}

#[test]
fn quantization_aware_parameters_are_not_clamped() {
    let mut q = quantizer();
    q.is_qat = true;
    assert!(!q.clamps());
    assert_eq!(quantize(&q, &[2], &[-1.0, 100.0]), vec![-10, 1000]);
    q.is_precomputed_qat = true;
    assert!(q.clamps());
    assert_eq!(quantize(&q, &[2], &[-1.0, 100.0]), vec![0, 255]);
    q.no_clipping = true;
    assert!(!q.clamps());
    assert_eq!(quantize(&q, &[2], &[-1.0, 100.0]), vec![-10, 1000]);
}

#[test]
fn the_signed_grid_is_moved_by_the_offset() {
    let mut q = quantizer();
    q.is_signed = true;
    q.offset = Tensor { shape: vec![1], data: vec![128] };
    assert_eq!(quantize(&q, &[4], &[-20.0, -12.8, 12.7, 20.0]), vec![-128, -128, 127, 127]);
    q.is_narrow = true;
    assert_eq!(quantize(&q, &[4], &[-20.0, -12.8, 12.7, 20.0]), vec![-127, -127, 127, 127]);
}

#[test]
fn the_unsigned_grid_loses_its_top_to_the_offset() {
    let mut q = quantizer();
    q.offset = Tensor { shape: vec![1], data: vec![55] };
    assert_eq!(quantize(&q, &[3], &[-1.0, 10.0, 30.0]), vec![0, 100, 200]);
    q.is_narrow = true;
    assert_eq!(quantize(&q, &[3], &[-1.0, 10.0, 30.0]), vec![1, 100, 200]);
}

#[test]
fn narrow_bit_widths_have_narrow_grids() {
    let mut q = quantizer();
    q.n_bits = 1;
    assert_eq!(quantize(&q, &[3], &[-1.0, 0.04, 1.0]), vec![0, 0, 1]);
    q.n_bits = 3;
    assert_eq!(quantize(&q, &[3], &[-1.0, 0.5, 1.0]), vec![0, 5, 7]);
    q.n_bits = 62;
    assert_eq!(quantize(&q, &[2], &[-1.0, 1e40]), vec![0, (1i64 << 62) - 1]);
}

#[test]
fn the_zero_point_shifts_the_codes() {
    let mut q = quantizer();
    q.zero_point = Tensor { shape: vec![1], data: vec![double(128.0)] };
    assert_eq!(quantize(&q, &[3], &[-1.0, 0.0, 1.0]), vec![118, 128, 138]);
}

#[test]
fn half_codes_round_away_from_zero() {
    let mut q = quantizer();
    q.scale = double(1.0);
    q.no_clipping = true;
    assert_eq!(
        quantize(&q, &[6], &[0.5, 1.5, 2.5, -0.5, -1.5, -2.5]),
        vec![1, 2, 3, -1, -2, -3]
    );
}

#[test]
fn nan_becomes_code_zero() {
    let q = quantizer();
    assert_eq!(quantize(&q, &[3], &[f64::NAN, 1.0, f64::NAN]), vec![0, 10, 0]);
    let mut q = quantizer();
    q.no_clipping = true;
    assert_eq!(quantize(&q, &[3], &[-1.0, f64::NAN, 1.0]), vec![-10, 0, 10]);
    q.scale = double(f64::NAN);
    assert_eq!(quantize(&q, &[2], &[-1.0, 1.0]), vec![0, 0]);
}

#[test]
fn nan_is_clamped_like_code_zero() {
    let mut q = quantizer();
    q.is_narrow = true;
    assert_eq!(quantize(&q, &[2], &[f64::NAN, 1.0]), vec![1, 10]);
}

#[test]
fn a_scale_of_zero_saturates() {
    let mut q = quantizer();
    q.scale = double(0.0);
    q.no_clipping = true;
    assert_eq!(quantize(&q, &[3], &[1.0, -1.0, 0.0]), vec![i64::MAX, i64::MIN, 0]);
    q.no_clipping = false;
    assert_eq!(quantize(&q, &[3], &[1.0, -1.0, 0.0]), vec![255, 0, 0]);
}

#[test]
fn offsets_are_broadcast_along_the_last_axis() {
    let mut q = quantizer();
    q.offset = Tensor { shape: vec![3], data: vec![0, 100, 200] };
    let values = [30.0, 30.0, 30.0, -1.0, 10.0, 5.0];
    assert_eq!(quantize(&q, &[2, 3], &values), vec![255, 155, 55, 0, 100, 50]);
}

#[test]
fn offsets_are_broadcast_along_a_unit_axis() {
    let mut q = quantizer();
    q.is_signed = true;
    q.offset = Tensor { shape: vec![2, 1], data: vec![0, 128] };
    let values = [-30.0, 0.0, 30.0, -30.0, 0.0, 30.0];
    assert_eq!(quantize(&q, &[2, 3], &values), vec![0, 0, 255, -128, 0, 127]);
}

#[test]
fn zero_points_are_broadcast_by_rows() {
    let mut q = quantizer();
    q.no_clipping = true;
    q.zero_point = Tensor { shape: vec![2, 2], data: doubles(&[1.0, 2.0, 3.0, 4.0]) };
    let values = [0.0, 0.0, 0.0, 0.0, 1.0, 1.0, 1.0, 1.0];
    assert_eq!(quantize(&q, &[2, 2, 2], &values), vec![1, 2, 3, 4, 11, 12, 13, 14]);
    assert_eq!(
        dequantize(&q, &[2, 2, 2], &[1, 2, 3, 4, 11, 12, 13, 14]),
        vec![0.0, 0.0, 0.0, 0.0, 1.0, 1.0, 1.0, 1.0]
    );
}

#[test]
fn a_single_offset_acts_like_a_full_one() {
    let mut single = quantizer();
    single.is_signed = true;
    single.offset = Tensor { shape: vec![1], data: vec![100] };
    single.zero_point = Tensor { shape: vec![1], data: vec![double(3.0)] };
    let mut full = single.clone();
    full.offset = Tensor { shape: vec![2, 3], data: vec![100; 6] };
    full.zero_point = Tensor { shape: vec![2, 3], data: vec![double(3.0); 6] };
    let values = [-50.0, -10.0, -0.26, 0.0, 14.0, 50.0];
    assert_eq!(quantize(&single, &[2, 3], &values), quantize(&full, &[2, 3], &values));
    assert_eq!(quantize(&single, &[2, 3], &values), vec![-100, -97, 0, 3, 143, 155]);
    let codes = [-100, -97, 0, 3, 143, 155];
    assert_eq!(dequantize(&single, &[2, 3], &codes), dequantize(&full, &[2, 3], &codes));
}

#[test]
fn every_shape_is_kept() {
    let q = quantizer();
    for shape in [vec![1], vec![5], vec![2, 3], vec![1, 4, 1], vec![2, 0], vec![3, 1, 2, 2]] {
        let n: usize = shape.iter().product();
        let values = vec![1.0; n];
        let codes = q.quantize(&affine(&q, &shape, &values)).unwrap();
        assert_eq!(codes.shape, shape);
        assert_eq!(codes.data, vec![10; n]);
        assert_eq!(q.broadcast_zero_point(&shape).unwrap().shape, shape);
    }
}

#[test]
fn codes_stay_within_the_bounds_of_their_position() {
    let mut q = quantizer();
    q.n_bits = 4;
    q.is_signed = true;
    q.is_narrow = true;
    q.offset = Tensor { shape: vec![4], data: vec![0, 3, 8, 15] };
    let values: Vec<f64> = (0..40).map(|i| (i as f64 - 20.0) * 0.37).collect();
    let codes = quantize(&q, &[10, 4], &values);
    for (i, code) in codes.iter().enumerate() {
        let offset = q.offset.data[i % 4];
        assert!(-offset + 1 <= *code && *code <= 15 - offset, "{} at {}", code, i);
    }
}

#[test]
fn a_round_trip_stays_within_half_a_step() {
    let mut q = quantizer();
    q.no_clipping = true;
    q.zero_point = Tensor { shape: vec![1], data: vec![double(7.0)] };
    let values: Vec<f64> = (0..200).map(|i| (i as f64 - 100.0) * 0.0371).collect();
    let codes = quantize(&q, &[200], &values);
    let back = dequantize(&q, &[200], &codes);
    for (x, y) in values.iter().zip(back.iter()) {
        assert!((x - y).abs() <= 0.05 + 1e-9, "{} against {}", x, y);
    }
    assert_eq!(quantize(&q, &[1], &[0.37]), vec![11]);
    assert!((dequantize(&q, &[1], &[11])[0] - 0.4).abs() < 1e-12);
}

#[test]
fn a_zero_point_that_does_not_fit_is_an_error() {
    let mut q = quantizer();
    q.zero_point = Tensor { shape: vec![2], data: doubles(&[0.0, 1.0]) };
    let values = Tensor::new(vec![3], doubles(&[1.0, 2.0, 3.0])).unwrap();
    let e = q.quantize(&values).unwrap_err();
    assert_eq!(e.from, vec![2]);
    assert_eq!(e.to, vec![3]);
    let e = q.broadcast_zero_point(&[3]).unwrap_err();
    assert_eq!(e.from, vec![2]);
    assert_eq!(e.to, vec![3]);
    let fitting = Tensor::new(vec![4, 2], doubles(&[0.0; 8])).unwrap();
    assert!(q.quantize(&fitting).is_ok());
}

#[test]
fn an_offset_that_does_not_fit_is_an_error_where_codes_are_clamped() {
    let mut q = quantizer();
    q.offset = Tensor { shape: vec![2], data: vec![0, 1] };
    let values = Tensor::new(vec![3], doubles(&[1.0, 2.0, 3.0])).unwrap();
    let e = q.quantize(&values).unwrap_err();
    assert_eq!(e.from, vec![2]);
    assert_eq!(e.to, vec![3]);
    q.no_clipping = true;
    assert_eq!(q.quantize(&values).unwrap().data, vec![1, 2, 3]);
}

#[test]
fn the_zero_point_is_tested_before_the_offset() {
    let mut q = quantizer();
    q.zero_point = Tensor { shape: vec![4], data: doubles(&[0.0; 4]) };
    q.offset = Tensor { shape: vec![2], data: vec![0, 1] };
    let values = Tensor::new(vec![3], doubles(&[1.0, 2.0, 3.0])).unwrap();
    assert_eq!(q.quantize(&values).unwrap_err().from, vec![4]);
}

#[test]
fn a_quantizer_stays_usable_after_an_error() {
    let mut q = quantizer();
    q.offset = Tensor { shape: vec![2], data: vec![0, 1] };
    let wrong = Tensor::new(vec![3], doubles(&[1.0, 2.0, 3.0])).unwrap();
    assert!(q.quantize(&wrong).is_err());
    let right = Tensor::new(vec![2], doubles(&[1.0, 300.0])).unwrap();
    assert_eq!(q.quantize(&right).unwrap().data, vec![1, 254]);
}

#[test]
fn validity_asks_for_bounds_in_order() {
    let mut q = quantizer();
    assert!(q.is_valid());
    q.offset = Tensor { shape: vec![1], data: vec![255] };
    assert!(q.is_valid());
    q.offset = Tensor { shape: vec![1], data: vec![256] };
    assert!(!q.is_valid());
    q.no_clipping = true;
    assert!(q.is_valid());
    q.no_clipping = false;
    q.is_signed = true;
    assert!(q.is_valid());
    q.offset = Tensor { shape: vec![2], data: vec![0, i64::MIN] };
    assert!(!q.is_valid());
    q.offset = Tensor { shape: vec![2], data: vec![0, i64::MAX] };
    assert!(q.is_valid());
    q.is_signed = false;
    q.is_narrow = true;
    q.offset = Tensor { shape: vec![1], data: vec![255] };
    assert!(!q.is_valid());
    q.offset = Tensor { shape: vec![1], data: vec![254] };
    assert!(q.is_valid());
    assert_eq!(quantize(&q, &[2], &[0.0, 30.0]), vec![1, 1]);
}

#[test]
fn validity_asks_for_the_invariants() {
    let mut q = quantizer();
    q.n_bits = 0;
    assert!(!q.is_valid());
    q.n_bits = 63;
    assert!(!q.is_valid());
    q.n_bits = 62;
    assert!(q.is_valid());
    q.zero_point = Tensor { shape: vec![], data: vec![double(0.0)] };
    assert!(!q.is_valid());
    q.zero_point = Tensor { shape: vec![2], data: vec![double(0.0)] };
    assert!(!q.is_valid());
    q.zero_point = Tensor { shape: vec![1], data: vec![double(0.0)] };
    q.offset = Tensor { shape: vec![], data: vec![0] };
    assert!(!q.is_valid());
    q.offset = Tensor { shape: vec![3], data: vec![0] };
    assert!(!q.is_valid());
}

#[test]
fn a_read_quantizer_quantizes() {
    let text = "{\"type_name\": \"UniformQuantizer\", \"serialized_value\": {\
        \"n_bits\": 8, \"is_signed\": false, \"is_symmetric\": false, \"is_qat\": false, \
        \"is_narrow\": false, \"is_precomputed_qat\": false, \
        \"scale\": {\"type_name\": \"numpy_float\", \"serialized_value\": 0.1, \"dtype\": \"float64\"}, \
        \"zero_point\": {\"type_name\": \"numpy_integer\", \"serialized_value\": 0, \"dtype\": \"int64\"}, \
        \"offset\": 0, \"no_clipping\": false}}";
    let q = Quantizer::from_json_str(text).unwrap();
    assert_eq!(quantize(&q, &[3], &[-1.0, 0.0, 1.0]), vec![0, 0, 10]);
    assert_eq!(dequantize(&q, &[3], &[0, 0, 10]), vec![0.0, 0.0, 1.0]);
    let text = text.replace("\"no_clipping\": false", "\"no_clipping\": true");
    let q = Quantizer::from_json_str(&text).unwrap();
    assert_eq!(quantize(&q, &[1], &[-1.0]), vec![-10]);
}
