use liara_core::device::{
    absorb_crash, active_name, clamp_layers, context_size, default_model_file, in_fallback,
    meminfo_kb, mmproj_for, offload_plan, ram_gb, runs_on_cpu, weak_gpu, LayerPlan,
};

#[test]
fn weak_gpus_by_platform() {
    assert!(weak_gpu("mt6789\n"));
    assert!(weak_gpu("MediaTek"));
    assert!(weak_gpu(" lito "));
    assert!(weak_gpu("holi"));
    assert!(!weak_gpu("pineapple"));
    assert!(!weak_gpu("kalama"));
}

#[test]
fn meminfo_fields() {
    let text = "MemTotal:       11680000 kB\nMemFree:          500000 kB\nMemAvailable:    3600000 kB\n";
    assert_eq!(meminfo_kb(text, "MemAvailable:"), Some(3600000));
    assert_eq!(meminfo_kb(text, "MemTotal"), Some(11680000));
    assert_eq!(meminfo_kb(text, "SwapTotal:"), None);
    assert_eq!(ram_gb(11680000), 11);
    assert_eq!(ram_gb(7_800_000), 7);
    assert_eq!(ram_gb(0), 0);
}

#[test]
fn offload_decisions() {
    assert!(matches!(offload_plan(Some(20), true, true, 5, 1), LayerPlan::Layers(20)));
    assert!(matches!(offload_plan(None, true, false, 5, 1), LayerPlan::Layers(0)));
    assert!(matches!(offload_plan(None, false, false, 2_500_000_000, 3_600_000_000), LayerPlan::Layers(999)));
    assert!(matches!(offload_plan(None, false, true, 0, 0), LayerPlan::Layers(12)));
    assert!(matches!(offload_plan(None, false, false, 5_300_000_000, 3_600_000_000), LayerPlan::Partial(999)));
    assert_eq!(clamp_layers(0, 999), 1);
    assert_eq!(clamp_layers(17, 999), 17);
    assert_eq!(clamp_layers(40, 12), 12);
    assert_eq!(context_size(Some("8192"), 4096), 8192);
    assert_eq!(context_size(Some("tanto"), 4096), 4096);
    assert_eq!(context_size(None, 32768), 32768);
}

#[test]
fn gpu_crash_fallback() {
    assert!(runs_on_cpu(false, "/m/Liara-1.7B-it.gguf"));
    assert!(runs_on_cpu(true, "/m/gemma.gguf"));
    assert!(!runs_on_cpu(false, "/m/gemma.gguf"));
    assert!(in_fallback("a.gguf\n b.gguf \n", "b.gguf"));
    assert!(!in_fallback("a.gguf\n", "c.gguf"));
    assert_eq!(absorb_crash(" c.gguf\n", "a.gguf\n").as_deref(), Some("a.gguf\nc.gguf\n"));
    assert_eq!(absorb_crash("a.gguf", "a.gguf\n"), None);
    assert_eq!(absorb_crash("  ", "a.gguf\n"), None);
}

#[test]
fn model_file_choice() {
    assert_eq!(active_name(" gemma-4-e4b.gguf\n").as_deref(), Some("gemma-4-e4b.gguf"));
    assert_eq!(active_name("  "), None);
    let files = vec![
        "zeta.gguf".to_string(),
        "mmproj-gemma-4-e4b-f16.gguf".to_string(),
        "beta.gguf.part".to_string(),
        "alpha.gguf".to_string(),
    ];
    assert_eq!(default_model_file(&files), "alpha.gguf");
    assert_eq!(default_model_file(&vec![]), "liara-1.7b-it.gguf");
    assert_eq!(mmproj_for("Gemma-4-12B-it.gguf").as_deref(), Some("mmproj-gemma-4-12b-f16.gguf"));
    assert_eq!(mmproj_for("gemma-4-e4b.gguf").as_deref(), Some("mmproj-gemma-4-e4b-f16.gguf"));
    assert_eq!(mmproj_for("liara-4b.gguf"), None);
}
