use sentinel_reporter::models::criteria::{RiskScore, Status};
use sentinel_reporter::analyzer::parser::CsvParser;
use sentinel_reporter::models::metrics::{CsvRow, TrainingSession};
use sentinel_reporter::reporter::markdown::MarkdownReporter;
use sentinel_reporter::reporter::svg_charts::SvgChartGenerator;

fn metric(cell: &String) -> Result<f64, String> {
    cell.parse::<f64>().map_err(|e| e.to_string())
}

fn session_with(status: &str) -> TrainingSession<f64> {
    let cells: Vec<String> = [
        "2024-01-15 10:30:00+0000", status, "1", "10", "0", "50", "1", "0", "0.1", "100", "0.1",
        "0.01", "0.01", "0.01", "5", "0.5", "1",
    ]
    .iter()
    .map(|c| c.to_string())
    .collect();
    CsvParser::parse_rows(&vec![CsvRow { raw: cells }], &metric).0
}

#[test]
fn empty_report_text() {
    assert_eq!(
        MarkdownReporter::empty_report(),
        "# 📊 Sentinel Eğitim Raporu\n\n> Henüz veri yok. CSV dosyası bekleniyor...\n\n*sentinel-reporter çalışıyor...*\n"
    );
}

#[test]
fn advice_critical_from_sixty() {
    let signals = vec!["first".to_string(), "second".to_string()];
    let advice = MarkdownReporter::generate_advice(60, "-12.5000", "0.650", &signals);
    assert_eq!(
        advice,
        "🔴 **KRİTİK DURUM** — Eğitimi DURDURUN!\n\n- Risk skoru 60 çok yüksek\n- Sistem zarar ediyor (PnL: -12.5000$)\n- Fitness fonksiyonunu gözden geçirin\n- Genom boyutunu azaltın (overfitting!)\n- Confidence threshold'u düşürün (şu an: 0.650)\n\nTespit edilen sorunlar:\n  - first\n  - second\n"
    );
}

#[test]
fn advice_critical_without_signals() {
    let advice = MarkdownReporter::generate_advice(100, "0.0000", "1.000", &[]);
    assert!(advice.ends_with("Tespit edilen sorunlar:\n\n"));
    assert!(advice.contains("Risk skoru 100 çok yüksek"));
}

#[test]
fn advice_caution_from_thirty_to_fifty_nine() {
    let expected = "🟡 **DİKKAT** — İyileştirme Gerekli\n\n- PnL hâlâ negatif, parametreleri ayarlayın\n- İşlem sayısı yeterli mi kontrol edin\n- Mutasyon oranını artırın (plato olabilir)\n- Validation set ile doğrulayın\n";
    assert_eq!(MarkdownReporter::generate_advice(59, "1", "1", &[]), expected);
    assert_eq!(MarkdownReporter::generate_advice(30, "1", "1", &[]), expected);
}

#[test]
fn advice_good_below_thirty() {
    let expected = "🟢 **İYİ DURUM** — Devam Edin\n\n- Sistem sağlıklı ilerliyor\n- Mevcut parametreleri koruyun\n- Canlı test için hazırlanın\n";
    assert_eq!(MarkdownReporter::generate_advice(29, "1", "1", &[]), expected);
    assert_eq!(MarkdownReporter::generate_advice(0, "1", "1", &[]), expected);
}

#[test]
fn empty_chart_layout() {
    assert_eq!(
        SvgChartGenerator::empty_chart("PnL ($)", 400, 200),
        "<svg viewBox=\"0 0 400 200\" xmlns=\"http://www.w3.org/2000/svg\">\n  <rect width=\"400\" height=\"200\" fill=\"rgb(243,244,246)\" rx=\"8\"/>\n  <text x=\"200\" y=\"95\" text-anchor=\"middle\" fill=\"rgb(156,163,175)\" font-size=\"14\">PnL ($)</text>\n  <text x=\"200\" y=\"115\" text-anchor=\"middle\" fill=\"rgb(156,163,175)\" font-size=\"11\">Yetersiz veri</text>\n</svg>"
    );
}

#[test]
fn empty_chart_odd_size() {
    let svg = SvgChartGenerator::empty_chart("T", 801, 11);
    assert!(svg.contains("<text x=\"400\" y=\"0\""));
    assert!(svg.contains("<text x=\"400\" y=\"20\""));
}

#[test]
fn empty_dashboard_text() {
    assert_eq!(
        SvgChartGenerator::empty_dashboard(),
        "<div style=\"padding: 20px; background: rgb(243,244,246); border-radius: 8px; text-align: center; color: rgb(156,163,175);\">\n  Dashboard icin yeterli veri yok\n</div>"
    );
}

fn fake_chart(_s: &TrainingSession<f64>, key: &str, title: &str, color: &str, w: u32, h: u32) -> String {
    format!("[{}|{}|{}|{}x{}]", key, title, color, w, h)
}

#[test]
fn dashboard_grid_lays_out_four_charts() {
    let session = session_with("RECORD");
    assert_eq!(
        SvgChartGenerator::dashboard_grid(&session, &fake_chart),
        "<div style=\"display: grid; grid-template-columns: 1fr 1fr; gap: 16px; max-width: 900px;\">\n  <div>[fitness|Fitness|#2563eb|400x200]</div>\n  <div>[pnl|PnL ($)|#dc2626|400x200]</div>\n  <div>[win_rate|WinRate (%)|#16a34a|400x200]</div>\n  <div>[profit_factor|Profit Factor|#9333ea|400x200]</div>\n</div>"
    );
}

#[test]
fn dashboard_grid_without_record_entries() {
    let session = session_with("UPDATE");
    assert_eq!(
        SvgChartGenerator::dashboard_grid(&session, &fake_chart),
        SvgChartGenerator::empty_dashboard()
    );
}

#[test]
fn advice_follows_risk_bands() {
    for score in 0..=255u8 {
        let advice = MarkdownReporter::generate_advice(score, "0", "0", &[]);
        let head = match RiskScore::classify(score).0 {
            Status::Danger => "🔴 **KRİTİK DURUM** — Eğitimi DURDURUN!",
            Status::Warning => "🟡 **DİKKAT** — İyileştirme Gerekli",
            Status::Success => "🟢 **İYİ DURUM** — Devam Edin",
        };
        assert!(advice.starts_with(head), "{}", score);
    }
}
