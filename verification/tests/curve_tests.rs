use light_control::battery_voltage_to_capacity::battery_voltage_to_capacity;
use light_control::perceived_light_math::fill_pwm_duty_cycle_values;
use light_control::power_dissipation::battery_capacity;
use light_control::pwm_led::PwmLed;
use light_control::voltage_to_temp::voltage_to_temp;

#[test]
fn percentages() {
    let voltages = [
        8400, 8200, 8100, 8000, 7900, 7800, 7700, 7640, 7600, 7540, 7500, 7460, 7440, 7420,
        7400, 7380, 7360, 7300, 7280, 7200, 6920, 6600, 6300, 6000,
    ];

    let expected = [
        100, 95, 90, 85, 80, 75, 70, 66, 61, 54, 49, 45, 39, 34, 29, 24, 20, 14, 13, 9, 7, 4, 2,
        0,
    ];
    let res: Vec<u32> = voltages
        .iter()
        .map(|it| battery_voltage_to_capacity(*it))
        .collect();
    assert_eq!(res, expected);
}

#[test]
fn calculate_pwm() {
    let expected = [
        86, 87, 89, 91, 92, 94, 96, 97, 99, 101, 102, 104, 107, 109, 112, 114, 117, 120, 123,
        127, 131, 134, 139, 143, 147, 152, 157, 162, 168, 174, 179, 186, 193, 199, 207, 214, 221,
        229, 238, 246, 255, 265, 275, 284, 294, 305, 316, 327, 339, 351, 364, 377, 390, 403, 417,
        432, 447, 462, 478, 494, 511, 528, 545, 563, 581, 600, 619, 639, 659, 680, 702, 723, 746,
        768, 792, 815, 839, 865, 890, 916, 943, 969, 997, 1025, 1054, 1083, 1113, 1144, 1175,
        1207, 1239, 1272, 1305, 1340, 1374, 1410, 1446, 1482, 1520, 1559, 1599,
    ];
    let mut duties: Vec<u16> = vec![0; 101];
    fill_pwm_duty_cycle_values(&mut duties, 86, 1599);
    assert_eq!(duties, expected);
}

#[test]
fn temperature_is_converted_correctly() {
    let input = [
        2420, 2392, 2363, 2334, 2305, 2275, 2245, 2215, 2184, 2153, 2122, 2091, 2060, 2028, 1997,
        1965, 1934, 1902, 1870, 1838, 1807, 1775, 1744, 1712, 1681, 1650, 1619, 1588, 1558, 1528,
        1498, 1468, 1438, 1409, 1380, 1352, 1324, 1296, 1268, 1241, 1215, 1188, 1162, 1137, 1112,
        1087, 1063, 1039, 1015, 992, 971, 948, 926, 905, 884, 863, 843, 823, 804, 785, 767, 749,
        731, 714, 697, 680, 664, 648, 633, 618, 603, 589, 575, 561, 548, 535, 522, 510, 497, 486,
        474, 463, 452, 441, 431, 421,
    ];
    let expected_temperature = [
        0, 0, 1, 2, 3, 4, 5, 6, 7, 8, 9, 10, 11, 12, 13, 14, 15, 16, 17, 18, 19, 20, 21, 22, 23,
        24, 25, 26, 27, 28, 29, 30, 31, 32, 33, 34, 35, 36, 37, 38, 39, 40, 42, 43, 44, 45, 45,
        46, 47, 48, 50, 52, 53, 54, 55, 56, 57, 58, 59, 60, 61, 62, 62, 63, 64, 65, 67, 68, 69,
        70, 71, 72, 73, 74, 75, 76, 76, 77, 78, 79, 80, 81, 81, 82, 83, 84,
    ];
    for i in 0..85 {
        let actual = voltage_to_temp(input[i]);
        let expected = expected_temperature[i];
        assert!(
            0 <= expected - actual && expected - actual <= 1,
            "Failed for {}: diff: {}, expected: {}, actual: {}",
            input[i],
            expected - actual,
            expected,
            actual
        );
    }
}

#[test]
fn battery_capacity_inverts_the_curve() {
    // the lowest probed voltage whose reading reaches the wanted capacity
    assert_eq!(battery_capacity(100), 8300);
    assert_eq!(battery_capacity(85), 8000);
    assert_eq!(battery_capacity(20), 7400);
    assert_eq!(battery_capacity(2), 6300);
    assert_eq!(battery_capacity(0), 6000);
}

#[test]
fn pwm_led_maps_brightness_through_the_curve() {
    let mut led = PwmLed::create(1000);
    assert_eq!(led.get(), 0);
    assert_eq!(led.set(100), 1000);
    assert_eq!(led.get(), 100);
    assert_eq!(led.set(0), 0);
    // halfway up the scale the curve sits well below half the duty
    let mid = led.set(50);
    assert!(0 < mid && mid < 500);
}
