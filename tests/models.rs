use av_metrics::models::{
    check_model, parse_i32, parse_svm, parse_usize, select_model_variant, DescriptorShape, KernelType,
    ModelError, ModelVariant, NormType, SvmError, SvmType, HIGH_RESOLUTION_MIN_WIDTH,
};
use av_metrics::text::{split_bytes, text_lines};

const FIXTURE: &str = "svm_type nu_svr\nkernel_type rbf\ngamma 0.04\nnr_class 2\ntotal_sv 3\nrho 0.5\nSV\n0.25 1:0.5 2:-0.75\n-1 1:1 3:0.125\n0.5 2:2\n";

fn text(s: &str) -> Vec<u8> {
    s.as_bytes().to_vec()
}

fn num(v: &[u8]) -> f64 {
    std::str::from_utf8(v).unwrap().parse().unwrap()
}

#[test]
fn parsing_a_fixture_gives_its_header_values() {
    let m = parse_svm(FIXTURE.as_bytes()).unwrap();
    assert_eq!(m.svm_type, SvmType::NuSvr);
    assert_eq!(m.nr_class, 2);
    assert_eq!(m.total_sv, 3);
    assert_eq!(m.rho.len(), 1);
    assert_eq!(num(&m.rho[0]), 0.5);
    assert!(m.prob_a.is_empty());
    assert!(m.prob_b.is_empty());
    match &m.kernel_type {
        KernelType::Rbf { gamma } => assert_eq!(num(gamma), 0.04),
        _ => panic!("expected an rbf kernel"),
    }
    assert_eq!(m.svs.len(), 3);
    assert_eq!(num(&m.svs[1].coeffs[0]), -1.0);
    assert_eq!(m.svs[1].nodes.len(), 2);
    assert_eq!(m.svs[1].nodes[1].index, 3);
    assert_eq!(num(&m.svs[1].nodes[1].value), 0.125);
    assert_eq!(m.svs[2].nodes[0].index, 2);
}

#[test]
fn parsing_without_total_sv_fails() {
    let t = FIXTURE.replace("total_sv 3\n", "");
    assert_eq!(parse_svm(t.as_bytes()).err(), Some(SvmError::MissingHeader));
}

#[test]
fn parsing_reports_each_error() {
    let t = FIXTURE.replace("svm_type nu_svr", "svm_type bogus");
    assert_eq!(parse_svm(t.as_bytes()).err(), Some(SvmError::UnknownSvmType));
    let t = FIXTURE.replace("kernel_type rbf", "kernel_type cubic");
    assert_eq!(parse_svm(t.as_bytes()).err(), Some(SvmError::UnknownKernelType));
    let t = FIXTURE.replace("gamma 0.04\n", "");
    assert_eq!(parse_svm(t.as_bytes()).err(), Some(SvmError::MissingHeader));
    let t = FIXTURE.replace("nr_class 2", "nr_class two");
    assert_eq!(parse_svm(t.as_bytes()).err(), Some(SvmError::BadNumber));
    let t = FIXTURE.replace("nr_class 2", "nr_class 0");
    assert_eq!(parse_svm(t.as_bytes()).err(), Some(SvmError::BadNumber));
    let t = FIXTURE.replace("rho 0.5", "rho");
    assert_eq!(parse_svm(t.as_bytes()).err(), Some(SvmError::MalformedHeader));
    let t = FIXTURE.replace("0.5 2:2", "0.5 2");
    assert_eq!(parse_svm(t.as_bytes()).err(), Some(SvmError::MalformedSupportVector));
    let t = FIXTURE.replace("total_sv 3", "total_sv 4");
    assert_eq!(parse_svm(t.as_bytes()).err(), Some(SvmError::SupportVectorCountMismatch));
    let t = FIXTURE.replace("rho 0.5", "rho 1 2 3");
    assert_eq!(parse_svm(t.as_bytes()).err(), Some(SvmError::RhoCountMismatch));
}

#[test]
fn support_vectors_need_every_coefficient() {
    let short = "svm_type nu_svr\nkernel_type linear\nnr_class 3\ntotal_sv 1\nSV\n0.5\n";
    assert_eq!(parse_svm(short.as_bytes()).err(), Some(SvmError::MalformedSupportVector));
    let full = "svm_type nu_svr\nkernel_type linear\nnr_class 3\ntotal_sv 1\nrho 1 2 3\nSV\n0.5 -0.5 4:1\n";
    let m = parse_svm(full.as_bytes()).unwrap();
    assert_eq!(m.svs[0].coeffs.len(), 2);
    assert_eq!(m.rho.len(), 3);
    assert_eq!(m.svs[0].nodes[0].index, 4);
    let no_rho = "svm_type nu_svr\nkernel_type linear\nnr_class 3\ntotal_sv 0\nSV\n";
    assert!(parse_svm(no_rho.as_bytes()).unwrap().rho.is_empty());
}

#[test]
fn later_headers_replace_earlier_ones() {
    let t = FIXTURE.replace("rho 0.5", "rho 1.5 2.5\nrho 2.5");
    let m = parse_svm(t.as_bytes()).unwrap();
    assert_eq!(m.rho.len(), 1);
    assert_eq!(num(&m.rho[0]), 2.5);
}

#[test]
fn polynomial_kernels_read_their_parameters() {
    let t = FIXTURE.replace("kernel_type rbf", "kernel_type polynomial\ndegree -3\ncoef0 1");
    let m = parse_svm(t.as_bytes()).unwrap();
    match &m.kernel_type {
        KernelType::Polynomial { degree, gamma, coef0 } => {
            assert_eq!(*degree, -3);
            assert_eq!(num(gamma), 0.04);
            assert_eq!(num(coef0), 1.0);
        },
        _ => panic!("expected a polynomial kernel"),
    }
    let t = FIXTURE.replace("kernel_type rbf", "kernel_type polynomial\ndegree x\ncoef0 1");
    assert_eq!(parse_svm(t.as_bytes()).err(), Some(SvmError::BadNumber));
}

#[test]
fn svm_types_and_crlf_lines() {
    assert_eq!(SvmType::parse(b"c_svc"), Some(SvmType::CSvc));
    assert_eq!(SvmType::parse(b"one_class"), Some(SvmType::OneClass));
    assert_eq!(SvmType::parse(b"NU_SVR"), None);
    let t = FIXTURE.replace('\n', "\r\n");
    let m = parse_svm(t.as_bytes()).unwrap();
    assert_eq!(m.total_sv, 3);
    assert_eq!(num(&m.svs[2].nodes[0].value), 2.0);
}

#[test]
fn text_is_split_into_lines_and_pieces() {
    assert_eq!(text_lines(b"a\r\nb\n\nc"), vec![text("a"), text("b"), text(""), text("c")]);
    assert_eq!(text_lines(b"a\n"), vec![text("a")]);
    assert!(text_lines(b"").is_empty());
    assert_eq!(split_bytes(b"1:2:3", b':'), vec![text("1"), text("2"), text("3")]);
    assert_eq!(split_bytes(b"", b' '), vec![text("")]);
}

#[test]
fn integers_are_read_in_decimal() {
    assert_eq!(parse_usize(b"42"), Some(42));
    assert_eq!(parse_usize(b"+7"), Some(7));
    assert_eq!(parse_usize(b""), None);
    assert_eq!(parse_usize(b"-1"), None);
    assert_eq!(parse_usize(b"99999999999999999999999"), None);
    assert_eq!(parse_i32(b"-2147483648"), Some(i32::MIN));
    assert_eq!(parse_i32(b"2147483647"), Some(i32::MAX));
    assert_eq!(parse_i32(b"2147483648"), None);
    assert_eq!(parse_i32(b"-"), None);
}

#[test]
fn norm_types_ignore_case() {
    assert_eq!(NormType::parse(b"none"), Some(NormType::Unscaled));
    assert_eq!(NormType::parse(b"Linear_Rescale"), Some(NormType::LinearRescale));
    assert_eq!(NormType::parse(b"linear"), None);
}

#[test]
fn descriptors_are_checked() {
    let good = DescriptorShape {
        model_type: text("LIBSVMNUSVR"),
        feature_count: 6,
        norm_type: NormType::LinearRescale,
        slopes: Some(6),
        intercepts: Some(6),
    };
    assert_eq!(check_model(&good), Ok(()));
    let d = DescriptorShape { model_type: text("LIBSVMCSVC"), ..good_copy(&good) };
    assert_eq!(check_model(&d), Err(ModelError::UnknownModelType));
    let d = DescriptorShape { slopes: None, ..good_copy(&good) };
    assert_eq!(check_model(&d), Err(ModelError::MissingSlopes));
    let d = DescriptorShape { intercepts: None, ..good_copy(&good) };
    assert_eq!(check_model(&d), Err(ModelError::MissingIntercepts));
    let d = DescriptorShape { intercepts: Some(5), ..good_copy(&good) };
    assert_eq!(check_model(&d), Err(ModelError::RescaleLengthMismatch));
    let d = DescriptorShape { norm_type: NormType::Unscaled, slopes: None, intercepts: None, ..good_copy(&good) };
    assert_eq!(check_model(&d), Ok(()));
}

fn good_copy(d: &DescriptorShape) -> DescriptorShape {
    DescriptorShape {
        model_type: d.model_type.clone(),
        feature_count: d.feature_count,
        norm_type: d.norm_type,
        slopes: d.slopes,
        intercepts: d.intercepts,
    }
}

#[test]
fn resolution_threshold_boundary() {
    assert_eq!(HIGH_RESOLUTION_MIN_WIDTH, 2880);
    assert_eq!(select_model_variant(2879), ModelVariant::Default);
    assert_eq!(select_model_variant(2880), ModelVariant::HighResolution);
    assert_eq!(select_model_variant(1920), ModelVariant::Default);
    assert_eq!(select_model_variant(3840), ModelVariant::HighResolution);
}
