use microscope::hooks;
use microscope::streaming::file_name;

#[test]
fn test_hook_point_names() {
    assert_eq!(hooks::attn_out(0), "layers.0.attn_out");
    assert_eq!(hooks::attn_pattern(12), "layers.12.attn_pattern");
    assert_eq!(hooks::mlp_out(105), "layers.105.mlp_out");
    assert_eq!(hooks::residual(7), "layers.7.residual");
}

#[test]
fn test_backing_file_names() {
    assert_eq!(file_name(0, "residual"), "layer_0_residual.bin");
    assert_eq!(file_name(31, "attn_out"), "layer_31_attn_out.bin");
    assert_eq!(file_name(1000, "mlp_out"), "layer_1000_mlp_out.bin");
}
